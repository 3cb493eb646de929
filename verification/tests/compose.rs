use tui_texture::color::pack_vertex_color;
use tui_texture::color::resolve_color;
use tui_texture::color::Color;
use tui_texture::color::Rgb;
use tui_texture::compose::build_bg_vertices;
use tui_texture::compose::build_fg_vertices;
use tui_texture::compose::build_indices;
use tui_texture::compose::plan_frame;
use tui_texture::compose::DrawStep;
use tui_texture::atlas::Key;
use tui_texture::terminal::BgQuad;
use tui_texture::terminal::FgQuad;

#[test]
fn test_build_indices_two_quads() {
    let idx = build_indices(2);
    assert_eq!(idx, vec![0, 1, 2, 2, 3, 1, 4, 5, 6, 6, 7, 5]);
}

#[test]
fn test_build_bg_vertices_corners() {
    let quads = vec![BgQuad { col: 0, row: 0, x: 8, y: 16, width: 8, height: 16, color: 5 }];
    let v = build_bg_vertices(&quads);
    assert_eq!(v.len(), 4);
    assert_eq!((v[0].x, v[0].y), (8, 16));
    assert_eq!((v[1].x, v[1].y), (16, 16));
    assert_eq!((v[2].x, v[2].y), (8, 32));
    assert_eq!((v[3].x, v[3].y), (16, 32));
    assert!(v.iter().all(|vv| vv.color == 5));
}

#[test]
fn test_build_fg_vertices_uvs() {
    let quads = vec![FgQuad {
        col: 0,
        row: 0,
        x: 0,
        y: 0,
        width: 8,
        height: 16,
        color: 7,
        key: Key { style: 0, glyph: 1, font: 1 },
        u: 100,
        v: 200,
        uv_w: 8,
        uv_h: 16,
    }];
    let verts = build_fg_vertices(&quads);
    assert_eq!(verts.len(), 4);
    assert_eq!((verts[0].u, verts[0].v), (100, 200));
    assert_eq!((verts[1].u, verts[1].v), (108, 200));
    assert_eq!((verts[2].u, verts[2].v), (100, 216));
    assert_eq!((verts[3].u, verts[3].v), (108, 216));
    assert!(verts.iter().all(|vv| vv.color == 7 && vv.underline_pos == 0));
}

#[test]
fn test_plan_frame_uploads_precede_passes() {
    let plan = plan_frame(2, true);
    assert_eq!(plan.steps.len(), 4);
    assert_eq!(plan.steps[0], DrawStep::Upload { index: 0 });
    assert_eq!(plan.steps[1], DrawStep::Upload { index: 1 });
    assert_eq!(plan.steps[2], DrawStep::DrawBackground);
    assert_eq!(plan.steps[3], DrawStep::DrawForeground);
}

#[test]
fn test_plan_frame_without_foreground_clears() {
    let plan = plan_frame(1, false);
    assert_eq!(plan.steps.len(), 2);
    assert_eq!(plan.steps[0], DrawStep::Upload { index: 0 });
    assert_eq!(plan.steps[1], DrawStep::Clear);
}

#[test]
fn test_colors_pack() {
    let reset = Rgb { r: 1, g: 2, b: 3 };
    assert_eq!(resolve_color(Color::Reset, reset), reset);
    assert_eq!(resolve_color(Color::Red, reset), Rgb { r: 205, g: 0, b: 0 });
    assert_eq!(resolve_color(Color::Rgb(9, 8, 7), reset), Rgb { r: 9, g: 8, b: 7 });
    // Indexed: base palette, color cube and grayscale ramp.
    assert_eq!(resolve_color(Color::Indexed(1), reset), Rgb { r: 205, g: 0, b: 0 });
    assert_eq!(resolve_color(Color::Indexed(16), reset), Rgb { r: 0, g: 0, b: 0 });
    assert_eq!(resolve_color(Color::Indexed(231), reset), Rgb { r: 255, g: 255, b: 255 });
    assert_eq!(resolve_color(Color::Indexed(232), reset), Rgb { r: 8, g: 8, b: 8 });
    assert_eq!(resolve_color(Color::Indexed(255), reset), Rgb { r: 238, g: 238, b: 238 });
    assert_eq!(pack_vertex_color(Rgb { r: 0x11, g: 0x22, b: 0x33 }), 0x1122_33FF);
}

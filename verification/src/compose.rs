//! Compositor-facing output: expanding quads into vertex and index
//! buffers, and the ordered plan of GPU work for one frame.
//!
//! The plan encodes the scheduling rule of the two-pass compositor: every
//! pending atlas upload is issued before the passes, the opaque background
//! pass runs before the alpha-blended foreground pass, and a frame without
//! foreground vertices only clears the destination.

use vstd::prelude::*;

use crate::terminal::BgQuad;
use crate::terminal::FgQuad;

verus! {

/// One vertex of a background quad: position in pixels and a packed color.
#[derive(Clone, Copy, PartialEq, Eq, Structural, Debug)]
pub struct BgVertex {
    pub x: u32,
    pub y: u32,
    pub color: u32,
}

/// One vertex of a foreground glyph quad: position, the atlas texel it
/// samples, the packed foreground color and underline metadata.
#[derive(Clone, Copy, PartialEq, Eq, Structural, Debug)]
pub struct FgVertex {
    pub x: u32,
    pub y: u32,
    pub u: u32,
    pub v: u32,
    pub color: u32,
    pub underline_pos: u32,
    pub underline_color: u32,
}

/// The four corners of a quad, in emission order: top-left, top-right,
/// bottom-left, bottom-right.
pub open spec fn spec_bg_corner(q: BgQuad, c: int) -> BgVertex {
    let x = if c == 1 || c == 3 {
        (q.x + q.width) as u32
    } else {
        q.x
    };
    let y = if c == 2 || c == 3 {
        (q.y + q.height) as u32
    } else {
        q.y
    };
    BgVertex { x, y, color: q.color }
}

pub open spec fn spec_fg_corner(q: FgQuad, c: int) -> FgVertex {
    let x = if c == 1 || c == 3 {
        (q.x + q.width) as u32
    } else {
        q.x
    };
    let y = if c == 2 || c == 3 {
        (q.y + q.height) as u32
    } else {
        q.y
    };
    let u = if c == 1 || c == 3 {
        (q.u + q.uv_w) as u32
    } else {
        q.u
    };
    let v = if c == 2 || c == 3 {
        (q.v + q.uv_h) as u32
    } else {
        q.v
    };
    FgVertex { x, y, u, v, color: q.color, underline_pos: 0, underline_color: q.color }
}

pub open spec fn spec_quad_sums_fit(x: int, y: int, w: int, h: int) -> bool {
    x + w <= u32::MAX && y + h <= u32::MAX
}

/// Expands background quads into four corner vertices each.
pub fn build_bg_vertices(quads: &Vec<BgQuad>) -> (r: Vec<BgVertex>)
    requires
        forall|i: int|
            0 <= i < quads@.len() ==> spec_quad_sums_fit(
                (#[trigger] quads@[i]).x as int,
                quads@[i].y as int,
                quads@[i].width as int,
                quads@[i].height as int,
            ),
    ensures
        r@.len() == 4 * quads@.len(),
        forall|i: int, c: int|
            0 <= i < quads@.len() && 0 <= c < 4 ==> #[trigger] r@[4 * i + c] == spec_bg_corner(
                quads@[i],
                c,
            ),
{
    let mut r: Vec<BgVertex> = Vec::new();
    let mut i: usize = 0;
    while i < quads.len()
        invariant
            i <= quads@.len(),
            r@.len() == 4 * i,
            forall|i0: int|
                0 <= i0 < quads@.len() ==> spec_quad_sums_fit(
                    (#[trigger] quads@[i0]).x as int,
                    quads@[i0].y as int,
                    quads@[i0].width as int,
                    quads@[i0].height as int,
                ),
            forall|i0: int, c: int|
                0 <= i0 < i && 0 <= c < 4 ==> #[trigger] r@[4 * i0 + c] == spec_bg_corner(
                    quads@[i0],
                    c,
                ),
        decreases quads@.len() - i,
    {
        let q = quads[i];
        let ghost r_old = r@;
        r.push(BgVertex { x: q.x, y: q.y, color: q.color });
        r.push(BgVertex { x: q.x + q.width, y: q.y, color: q.color });
        r.push(BgVertex { x: q.x, y: q.y + q.height, color: q.color });
        r.push(BgVertex { x: q.x + q.width, y: q.y + q.height, color: q.color });
        proof {
            assert forall|i0: int, c: int| 0 <= i0 < i + 1 && 0 <= c < 4 implies #[trigger] r@[4
                * i0 + c] == spec_bg_corner(quads@[i0], c) by {
                if i0 < i {
                    assert(r@[4 * i0 + c] == r_old[4 * i0 + c]);
                }
            }
        }
        i = i + 1;
    }
    r
}

/// Expands foreground quads into four corner vertices each.
pub fn build_fg_vertices(quads: &Vec<FgQuad>) -> (r: Vec<FgVertex>)
    requires
        forall|i: int|
            0 <= i < quads@.len() ==> spec_quad_sums_fit(
                (#[trigger] quads@[i]).x as int,
                quads@[i].y as int,
                quads@[i].width as int,
                quads@[i].height as int,
            ) && spec_quad_sums_fit(
                quads@[i].u as int,
                quads@[i].v as int,
                quads@[i].uv_w as int,
                quads@[i].uv_h as int,
            ),
    ensures
        r@.len() == 4 * quads@.len(),
        forall|i: int, c: int|
            0 <= i < quads@.len() && 0 <= c < 4 ==> #[trigger] r@[4 * i + c] == spec_fg_corner(
                quads@[i],
                c,
            ),
{
    let mut r: Vec<FgVertex> = Vec::new();
    let mut i: usize = 0;
    while i < quads.len()
        invariant
            i <= quads@.len(),
            r@.len() == 4 * i,
            forall|i0: int|
                0 <= i0 < quads@.len() ==> spec_quad_sums_fit(
                    (#[trigger] quads@[i0]).x as int,
                    quads@[i0].y as int,
                    quads@[i0].width as int,
                    quads@[i0].height as int,
                ) && spec_quad_sums_fit(
                    quads@[i0].u as int,
                    quads@[i0].v as int,
                    quads@[i0].uv_w as int,
                    quads@[i0].uv_h as int,
                ),
            forall|i0: int, c: int|
                0 <= i0 < i && 0 <= c < 4 ==> #[trigger] r@[4 * i0 + c] == spec_fg_corner(
                    quads@[i0],
                    c,
                ),
        decreases quads@.len() - i,
    {
        let q = quads[i];
        let ghost r_old = r@;
        r.push(
            FgVertex {
                x: q.x,
                y: q.y,
                u: q.u,
                v: q.v,
                color: q.color,
                underline_pos: 0,
                underline_color: q.color,
            },
        );
        r.push(
            FgVertex {
                x: q.x + q.width,
                y: q.y,
                u: q.u + q.uv_w,
                v: q.v,
                color: q.color,
                underline_pos: 0,
                underline_color: q.color,
            },
        );
        r.push(
            FgVertex {
                x: q.x,
                y: q.y + q.height,
                u: q.u,
                v: q.v + q.uv_h,
                color: q.color,
                underline_pos: 0,
                underline_color: q.color,
            },
        );
        r.push(
            FgVertex {
                x: q.x + q.width,
                y: q.y + q.height,
                u: q.u + q.uv_w,
                v: q.v + q.uv_h,
                color: q.color,
                underline_pos: 0,
                underline_color: q.color,
            },
        );
        proof {
            assert forall|i0: int, c: int| 0 <= i0 < i + 1 && 0 <= c < 4 implies #[trigger] r@[4
                * i0 + c] == spec_fg_corner(quads@[i0], c) by {
                if i0 < i {
                    assert(r@[4 * i0 + c] == r_old[4 * i0 + c]);
                }
            }
        }
        i = i + 1;
    }
    r
}

/// The six indices of quad `i` (two triangles over its four corners).
pub open spec fn spec_quad_index(i: int, c: int) -> int {
    let base = 4 * i;
    if c == 0 {
        base
    } else if c == 1 {
        base + 1
    } else if c == 2 {
        base + 2
    } else if c == 3 {
        base + 2
    } else if c == 4 {
        base + 3
    } else {
        base + 1
    }
}

/// Builds the shared index buffer for `n` quads: six indices per quad,
/// two triangles.
pub fn build_indices(n: usize) -> (r: Vec<u32>)
    requires
        n <= 0x1000_0000,
    ensures
        r@.len() == 6 * n,
        forall|i: int, c: int|
            0 <= i < n && 0 <= c < 6 ==> #[trigger] r@[6 * i + c] == spec_quad_index(i, c),
{
    let mut r: Vec<u32> = Vec::new();
    let mut i: usize = 0;
    while i < n
        invariant
            i <= n,
            n <= 0x1000_0000,
            r@.len() == 6 * i,
            forall|i0: int, c: int|
                0 <= i0 < i && 0 <= c < 6 ==> #[trigger] r@[6 * i0 + c] == spec_quad_index(i0, c),
        decreases n - i,
    {
        let base = 4 * (i as u32);
        let ghost r_old = r@;
        r.push(base);
        r.push(base + 1);
        r.push(base + 2);
        r.push(base + 2);
        r.push(base + 3);
        r.push(base + 1);
        proof {
            assert forall|i0: int, c: int| 0 <= i0 < i + 1 && 0 <= c < 6 implies #[trigger] r@[6
                * i0 + c] == spec_quad_index(i0, c) by {
                if i0 < i {
                    assert(r@[6 * i0 + c] == r_old[6 * i0 + c]);
                }
            }
        }
        i = i + 1;
    }
    r
}

/// One step of GPU work.
#[derive(Clone, Copy, PartialEq, Eq, Structural, Debug)]
pub enum DrawStep {
    /// Write the pending upload with this index into the atlas texture.
    Upload { index: usize },
    /// Draw the opaque background pass.
    DrawBackground,
    /// Draw the alpha-blended foreground pass, sampling the atlas.
    DrawForeground,
    /// Clear the destination (a frame without foreground vertices).
    Clear,
}

/// The ordered GPU work of one frame.
#[derive(Debug)]
pub struct FramePlan {
    pub steps: Vec<DrawStep>,
}

/// Plans one frame: all pending uploads first (so the foreground pass
/// never samples stale atlas regions), then the background pass followed
/// by the foreground pass, or a plain clear when there is nothing to draw.
pub fn plan_frame(n_uploads: usize, has_foreground: bool) -> (r: FramePlan)
    requires
        n_uploads <= 0x1000_0000,
    ensures
        r.steps@.len() == n_uploads + (if has_foreground {
            2int
        } else {
            1int
        }),
        forall|i: int|
            0 <= i < n_uploads ==> #[trigger] r.steps@[i] == (DrawStep::Upload { index: i as usize }),
        has_foreground ==> r.steps@[n_uploads as int] == DrawStep::DrawBackground
            && r.steps@[n_uploads + 1] == DrawStep::DrawForeground,
        !has_foreground ==> r.steps@[n_uploads as int] == DrawStep::Clear,
{
    let mut steps: Vec<DrawStep> = Vec::new();
    let mut i: usize = 0;
    while i < n_uploads
        invariant
            i <= n_uploads,
            steps@.len() == i,
            forall|i0: int|
                0 <= i0 < i ==> #[trigger] steps@[i0] == (DrawStep::Upload { index: i0 as usize }),
        decreases n_uploads - i,
    {
        steps.push(DrawStep::Upload { index: i });
        i = i + 1;
    }
    if has_foreground {
        steps.push(DrawStep::DrawBackground);
        steps.push(DrawStep::DrawForeground);
    } else {
        steps.push(DrawStep::Clear);
    }
    FramePlan { steps }
}

} // verus!

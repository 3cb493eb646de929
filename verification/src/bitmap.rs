//! Pixel buffers and the shape rasterizer used for programmatic glyphs.
//!
//! All geometry is sampled at pixel centers, expressed in doubled
//! coordinates: the pixel `(x, y)` has its center at `(2x + 1, 2y + 1)`.
//! This keeps every half-pixel position (stroke edges, dot centers) an exact
//! integer, so rendering is deterministic by construction: the pixels of a
//! filled bitmap are a pure function of the shape list.

use vstd::prelude::*;

verus! {

/// Largest supported bitmap edge, in pixels.
pub const MAX_BITMAP_DIM: u32 = 4000;

/// Bound on the magnitude of shape coordinates, in doubled units.
pub const MAX_SHAPE_COORD: i64 = 8192;

/// Fully opaque white, in packed RGBA form (alpha in the highest byte).
pub const OPAQUE_WHITE: u32 = 0xFFFF_FFFF;

/// A shape to fill, in doubled coordinates.
///
/// - `Rect` covers centers with `x0 <= X < x1` and `y0 <= Y < y1`.
/// - `Tri` covers the closed triangle through its three corners.
/// - `Seg` covers centers within `stroke / 2` of the segment from `a` to `b`
///   (`stroke` is the full stroke width, in doubled units).
/// - `Ellipse` covers the closed ellipse with center `(cx, cy)` and
///   semi-axes `a` (horizontal) and `b` (vertical).
/// - `Ring` covers the area inside the outer ellipse but outside the inner
///   one, optionally restricted to a half or quarter plane by the signs
///   `qx`, `qy` (0 means unrestricted).
#[derive(Clone, Copy, PartialEq, Eq, Structural, Debug)]
pub enum Shape {
    Rect { x0: i64, y0: i64, x1: i64, y1: i64 },
    Tri { ax: i64, ay: i64, bx: i64, by: i64, cx: i64, cy: i64 },
    Seg { ax: i64, ay: i64, bx: i64, by: i64, stroke: i64 },
    Ellipse { cx: i64, cy: i64, a: i64, b: i64 },
    Ring {
        cx: i64,
        cy: i64,
        outer_a: i64,
        outer_b: i64,
        inner_a: i64,
        inner_b: i64,
        qx: i64,
        qy: i64,
    },
    Dots { cell_w: i64, cell_h: i64, dot: i64, parity: i64 },
}

pub open spec fn shape_bounded(s: Shape) -> bool {
    match s {
        Shape::Rect { x0, y0, x1, y1 } => {
            -MAX_SHAPE_COORD <= x0 <= MAX_SHAPE_COORD && -MAX_SHAPE_COORD <= y0 <= MAX_SHAPE_COORD
                && -MAX_SHAPE_COORD <= x1 <= MAX_SHAPE_COORD && -MAX_SHAPE_COORD <= y1
                <= MAX_SHAPE_COORD
        },
        Shape::Tri { ax, ay, bx, by, cx, cy } => {
            -MAX_SHAPE_COORD <= ax <= MAX_SHAPE_COORD && -MAX_SHAPE_COORD <= ay <= MAX_SHAPE_COORD
                && -MAX_SHAPE_COORD <= bx <= MAX_SHAPE_COORD && -MAX_SHAPE_COORD <= by
                <= MAX_SHAPE_COORD && -MAX_SHAPE_COORD <= cx <= MAX_SHAPE_COORD
                && -MAX_SHAPE_COORD <= cy <= MAX_SHAPE_COORD
        },
        Shape::Seg { ax, ay, bx, by, stroke } => {
            -MAX_SHAPE_COORD <= ax <= MAX_SHAPE_COORD && -MAX_SHAPE_COORD <= ay <= MAX_SHAPE_COORD
                && -MAX_SHAPE_COORD <= bx <= MAX_SHAPE_COORD && -MAX_SHAPE_COORD <= by
                <= MAX_SHAPE_COORD && 0 <= stroke <= MAX_SHAPE_COORD
        },
        Shape::Ellipse { cx, cy, a, b } => {
            -MAX_SHAPE_COORD <= cx <= MAX_SHAPE_COORD && -MAX_SHAPE_COORD <= cy <= MAX_SHAPE_COORD
                && 0 <= a <= MAX_SHAPE_COORD && 0 <= b <= MAX_SHAPE_COORD
        },
        Shape::Ring { cx, cy, outer_a, outer_b, inner_a, inner_b, qx, qy } => {
            -MAX_SHAPE_COORD <= cx <= MAX_SHAPE_COORD && -MAX_SHAPE_COORD <= cy <= MAX_SHAPE_COORD
                && 0 <= outer_a <= MAX_SHAPE_COORD && 0 <= outer_b <= MAX_SHAPE_COORD && 0
                <= inner_a <= MAX_SHAPE_COORD && 0 <= inner_b <= MAX_SHAPE_COORD && -1 <= qx <= 1
                && -1 <= qy <= 1
        },
        Shape::Dots { cell_w, cell_h, dot, parity } => {
            1 <= cell_w <= MAX_SHAPE_COORD && 1 <= cell_h <= MAX_SHAPE_COORD && 0 <= dot
                <= MAX_SHAPE_COORD && 0 <= parity <= 1
        },
    }
}

/// Signed area test: which side of the directed line `a -> b` the point lies on.
pub open spec fn spec_edge(ax: int, ay: int, bx: int, by: int, px: int, py: int) -> int {
    (bx - ax) * (py - ay) - (by - ay) * (px - ax)
}

pub open spec fn spec_in_ellipse(cx: int, cy: int, a: int, b: int, px: int, py: int) -> bool {
    (px - cx) * b * ((px - cx) * b) + (py - cy) * a * ((py - cy) * a) <= a * b * (a * b)
}

/// Whether the pixel center `(px, py)` (doubled coordinates) lies in the shape.
pub open spec fn spec_covers(s: Shape, px: int, py: int) -> bool {
    match s {
        Shape::Rect { x0, y0, x1, y1 } => x0 <= px < x1 && y0 <= py < y1,
        Shape::Tri { ax, ay, bx, by, cx, cy } => {
            let e1 = spec_edge(ax as int, ay as int, bx as int, by as int, px, py);
            let e2 = spec_edge(bx as int, by as int, cx as int, cy as int, px, py);
            let e3 = spec_edge(cx as int, cy as int, ax as int, ay as int, px, py);
            (e1 >= 0 && e2 >= 0 && e3 >= 0) || (e1 <= 0 && e2 <= 0 && e3 <= 0)
        },
        Shape::Seg { ax, ay, bx, by, stroke } => {
            let dax = px - ax;
            let day = py - ay;
            let dbx = px - bx;
            let dby = py - by;
            let ex = bx - ax;
            let ey = by - ay;
            let len2 = ex * ex + ey * ey;
            let proj = dax * ex + day * ey;
            if proj <= 0 {
                4 * (dax * dax + day * day) <= stroke * stroke
            } else if proj >= len2 {
                4 * (dbx * dbx + dby * dby) <= stroke * stroke
            } else {
                4 * ((dax * dax + day * day) * len2 - proj * proj) <= stroke * stroke * len2
            }
        },
        Shape::Ellipse { cx, cy, a, b } => {
            spec_in_ellipse(cx as int, cy as int, a as int, b as int, px, py)
        },
        Shape::Ring { cx, cy, outer_a, outer_b, inner_a, inner_b, qx, qy } => {
            spec_in_ellipse(cx as int, cy as int, outer_a as int, outer_b as int, px, py)
                && !spec_in_ellipse(cx as int, cy as int, inner_a as int, inner_b as int, px, py)
                && (qx == 0 || (px - cx) * qx >= 0) && (qy == 0 || (py - cy) * qy >= 0)
        },
        Shape::Dots { cell_w, cell_h, dot, parity } => {
            let col = px / (cell_w as int);
            let row = py / (cell_h as int);
            let ox = px % (cell_w as int);
            let oy = py % (cell_h as int);
            let dx0 = (cell_w - dot) as int / 2;
            let dy0 = (cell_h - dot) as int / 2;
            (col + row) % 2 == parity && dx0 <= ox < dx0 + dot && dy0 <= oy < dy0 + dot
        },
    }
}

/// The alpha channel of a packed RGBA pixel.
pub open spec fn spec_alpha(p: u32) -> u32 {
    p / 0x1000000
}

/// A width x height buffer of packed RGBA pixels, row-major.
pub struct Bitmap {
    pub width: u32,
    pub height: u32,
    pub pixels: Vec<u32>,
}

impl Bitmap {
    pub open spec fn wf(self) -> bool {
        &&& 1 <= self.width <= MAX_BITMAP_DIM
        &&& 1 <= self.height <= MAX_BITMAP_DIM
        &&& self.pixels.len() == self.width * self.height
    }

    pub open spec fn spec_pixel(self, x: int, y: int) -> u32 {
        self.pixels[y * self.width + x]
    }

    /// A fresh, fully transparent bitmap.
    pub fn new(width: u32, height: u32) -> (r: Bitmap)
        requires
            1 <= width <= MAX_BITMAP_DIM,
            1 <= height <= MAX_BITMAP_DIM,
        ensures
            r.wf(),
            r.width == width,
            r.height == height,
            forall|i: int| 0 <= i < r.pixels.len() ==> r.pixels[i] == 0u32,
            forall|x: int, y: int|
                0 <= x < width && 0 <= y < height ==> #[trigger] r.spec_pixel(x, y) == 0u32,
    {
        proof {
            lemma_mul_abs_bound(width as int, height as int, 4000, 4000);
        }
        let n = width as usize * height as usize;
        let mut pixels: Vec<u32> = Vec::new();
        let mut i: usize = 0;
        while i < n
            invariant
                i <= n,
                pixels.len() == i,
                forall|k: int| 0 <= k < i ==> pixels[k] == 0u32,
            decreases n - i,
        {
            pixels.push(0u32);
            i = i + 1;
        }
        let r = Bitmap { width, height, pixels };
        proof {
            assert forall|x: int, y: int|
                0 <= x < width && 0 <= y < height implies #[trigger] r.spec_pixel(x, y)
                == 0u32 by {
                lemma_row_major_index(width as int, height as int, x, y);
            }
        }
        r
    }

    /// Reads one pixel.
    pub fn pixel(&self, x: u32, y: u32) -> (r: u32)
        requires
            self.wf(),
            x < self.width,
            y < self.height,
        ensures
            r == self.spec_pixel(x as int, y as int),
    {
        proof {
            lemma_row_major_index(self.width as int, self.height as int, x as int, y as int);
        }
        self.pixels[y as usize * self.width as usize + x as usize]
    }

    /// Paints every pixel whose center lies in the shape.
    pub fn fill(&mut self, s: Shape, color: u32)
        requires
            old(self).wf(),
            shape_bounded(s),
        ensures
            final(self).wf(),
            final(self).width == old(self).width,
            final(self).height == old(self).height,
            forall|x: int, y: int|
                0 <= x < old(self).width && 0 <= y < old(self).height ==> final(self).spec_pixel(
                    x,
                    y,
                ) == if spec_covers(s, 2 * x + 1, 2 * y + 1) {
                    color
                } else {
                    old(self).spec_pixel(x, y)
                },
    {
        let ghost orig = *self;
        let width = self.width as usize;
        let height = self.height as usize;
        let mut y: usize = 0;
        while y < height
            invariant
                y <= height,
                width == orig.width,
                height == orig.height,
                shape_bounded(s),
                orig.wf(),
                self.wf(),
                self.width == orig.width,
                self.height == orig.height,
                forall|xx: int, yy: int|
                    0 <= xx < orig.width && 0 <= yy < orig.height ==> self.spec_pixel(xx, yy) == if
                    yy < y && spec_covers(s, 2 * xx + 1, 2 * yy + 1) {
                        color
                    } else {
                        orig.spec_pixel(xx, yy)
                    },
            decreases height - y,
        {
            let mut x: usize = 0;
            while x < width
                invariant
                    x <= width,
                    y < height,
                    width == orig.width,
                    height == orig.height,
                    shape_bounded(s),
                    orig.wf(),
                    self.wf(),
                    self.width == orig.width,
                    self.height == orig.height,
                    forall|xx: int, yy: int|
                        0 <= xx < orig.width && 0 <= yy < orig.height ==> self.spec_pixel(xx, yy)
                            == if (yy < y || (yy == y && xx < x)) && spec_covers(
                            s,
                            2 * xx + 1,
                            2 * yy + 1,
                        ) {
                            color
                        } else {
                            orig.spec_pixel(xx, yy)
                        },
                decreases width - x,
            {
                if covers_at(s, x, y) {
                    proof {
                        lemma_row_major_index(
                            orig.width as int,
                            orig.height as int,
                            x as int,
                            y as int,
                        );
                    }
                    let ghost before = *self;
                    let idx = y * width + x;
                    self.pixels.set(idx, color);
                    proof {
                        assert forall|xx: int, yy: int|
                            0 <= xx < orig.width && 0 <= yy < orig.height && !(xx == x && yy == y)
                                implies #[trigger] self.spec_pixel(xx, yy) == before.spec_pixel(
                            xx,
                            yy,
                        ) by {
                            lemma_row_major_index(orig.width as int, orig.height as int, xx, yy);
                            lemma_row_major_distinct(
                                orig.width as int,
                                orig.height as int,
                                xx,
                                yy,
                                x as int,
                                y as int,
                            );
                        }
                    }
                }
                x = x + 1;
            }
            y = y + 1;
        }
    }
}

/// Whether the center of pixel `(x, y)` lies in the shape.
pub fn covers_at(s: Shape, x: usize, y: usize) -> (r: bool)
    requires
        shape_bounded(s),
        x < MAX_BITMAP_DIM,
        y < MAX_BITMAP_DIM,
    ensures
        r == spec_covers(s, 2 * x + 1, 2 * y + 1),
{
    let px = 2 * (x as i64) + 1;
    let py = 2 * (y as i64) + 1;
    match s {
        Shape::Rect { x0, y0, x1, y1 } => x0 <= px && px < x1 && y0 <= py && py < y1,
        Shape::Tri { ax, ay, bx, by, cx, cy } => {
            let e1 = edge_value(ax, ay, bx, by, px, py);
            let e2 = edge_value(bx, by, cx, cy, px, py);
            let e3 = edge_value(cx, cy, ax, ay, px, py);
            (e1 >= 0 && e2 >= 0 && e3 >= 0) || (e1 <= 0 && e2 <= 0 && e3 <= 0)
        },
        Shape::Seg { ax, ay, bx, by, stroke } => {
            let dax = px - ax;
            let day = py - ay;
            let dbx = px - bx;
            let dby = py - by;
            let ex = bx - ax;
            let ey = by - ay;
            proof {
                lemma_mul_abs_bound(dax as int, dax as int, 16384, 16384);
                lemma_mul_abs_bound(day as int, day as int, 16384, 16384);
                lemma_mul_abs_bound(dbx as int, dbx as int, 16384, 16384);
                lemma_mul_abs_bound(dby as int, dby as int, 16384, 16384);
                lemma_mul_abs_bound(ex as int, ex as int, 16384, 16384);
                lemma_mul_abs_bound(ey as int, ey as int, 16384, 16384);
                lemma_mul_abs_bound(dax as int, ex as int, 16384, 16384);
                lemma_mul_abs_bound(day as int, ey as int, 16384, 16384);
                lemma_mul_abs_bound(stroke as int, stroke as int, 8192, 8192);
            }
            let len2 = ex * ex + ey * ey;
            let proj = dax * ex + day * ey;
            if proj <= 0 {
                4 * (dax * dax + day * day) <= stroke * stroke
            } else if proj >= len2 {
                4 * (dbx * dbx + dby * dby) <= stroke * stroke
            } else {
                let d2 = dax * dax + day * day;
                proof {
                    lemma_mul_abs_bound(d2 as int, len2 as int, 0x2000_0000, 0x2000_0000);
                    lemma_mul_abs_bound(proj as int, proj as int, 0x2000_0000, 0x2000_0000);
                    lemma_mul_abs_bound(
                        (stroke * stroke) as int,
                        len2 as int,
                        0x400_0000,
                        0x2000_0000,
                    );
                }
                4 * (d2 * len2 - proj * proj) <= stroke * stroke * len2
            }
        },
        Shape::Ellipse { cx, cy, a, b } => in_ellipse(cx, cy, a, b, px, py),
        Shape::Ring { cx, cy, outer_a, outer_b, inner_a, inner_b, qx, qy } => {
            proof {
                lemma_mul_abs_bound((px - cx) as int, qx as int, 16384, 1);
                lemma_mul_abs_bound((py - cy) as int, qy as int, 16384, 1);
            }
            in_ellipse(cx, cy, outer_a, outer_b, px, py) && !in_ellipse(
                cx,
                cy,
                inner_a,
                inner_b,
                px,
                py,
            ) && (qx == 0 || (px - cx) * qx >= 0) && (qy == 0 || (py - cy) * qy >= 0)
        },
        Shape::Dots { cell_w, cell_h, dot, parity } => {
            let col = px / cell_w;
            let row = py / cell_h;
            let ox = px % cell_w;
            let oy = py % cell_h;
            let dx0 = (cell_w - dot) / 2;
            let dy0 = (cell_h - dot) / 2;
            (col + row) % 2 == parity && dx0 <= ox && ox < dx0 + dot && dy0 <= oy && oy < dy0 + dot
        },
    }
}

fn edge_value(ax: i64, ay: i64, bx: i64, by: i64, px: i64, py: i64) -> (r: i64)
    requires
        -MAX_SHAPE_COORD <= ax <= MAX_SHAPE_COORD,
        -MAX_SHAPE_COORD <= ay <= MAX_SHAPE_COORD,
        -MAX_SHAPE_COORD <= bx <= MAX_SHAPE_COORD,
        -MAX_SHAPE_COORD <= by <= MAX_SHAPE_COORD,
        -MAX_SHAPE_COORD <= px <= 3 * MAX_SHAPE_COORD,
        -MAX_SHAPE_COORD <= py <= 3 * MAX_SHAPE_COORD,
    ensures
        r == spec_edge(ax as int, ay as int, bx as int, by as int, px as int, py as int),
{
    proof {
        lemma_mul_abs_bound((bx - ax) as int, (py - ay) as int, 16384, 32768);
        lemma_mul_abs_bound((by - ay) as int, (px - ax) as int, 16384, 32768);
    }
    (bx - ax) * (py - ay) - (by - ay) * (px - ax)
}

fn in_ellipse(cx: i64, cy: i64, a: i64, b: i64, px: i64, py: i64) -> (r: bool)
    requires
        -MAX_SHAPE_COORD <= cx <= MAX_SHAPE_COORD,
        -MAX_SHAPE_COORD <= cy <= MAX_SHAPE_COORD,
        0 <= a <= MAX_SHAPE_COORD,
        0 <= b <= MAX_SHAPE_COORD,
        -MAX_SHAPE_COORD <= px <= 3 * MAX_SHAPE_COORD,
        -MAX_SHAPE_COORD <= py <= 3 * MAX_SHAPE_COORD,
    ensures
        r == spec_in_ellipse(cx as int, cy as int, a as int, b as int, px as int, py as int),
{
    let dx = px - cx;
    let dy = py - cy;
    proof {
        lemma_mul_abs_bound(dx as int, b as int, 32768, 8192);
        lemma_mul_abs_bound(dy as int, a as int, 32768, 8192);
        lemma_mul_abs_bound((dx * b) as int, (dx * b) as int, 0x1000_0000, 0x1000_0000);
        lemma_mul_abs_bound((dy * a) as int, (dy * a) as int, 0x1000_0000, 0x1000_0000);
        lemma_mul_abs_bound(a as int, b as int, 8192, 8192);
        lemma_mul_abs_bound((a * b) as int, (a * b) as int, 0x400_0000, 0x400_0000);
    }
    dx * b * (dx * b) + dy * a * (dy * a) <= a * b * (a * b)
}

/// Bounds a product of bounded factors.
pub proof fn lemma_mul_abs_bound(x: int, y: int, bx: int, by: int)
    requires
        -bx <= x <= bx,
        -by <= y <= by,
        0 <= bx,
        0 <= by,
    ensures
        -(bx * by) <= x * y <= bx * by,
{
    assert(-(bx * by) <= x * y <= bx * by) by (nonlinear_arith)
        requires
            -bx <= x <= bx,
            -by <= y <= by,
            0 <= bx,
            0 <= by,
    ;
}

/// Row-major indexing stays within the buffer.
pub proof fn lemma_row_major_index(width: int, height: int, x: int, y: int)
    requires
        0 <= x < width,
        0 <= y < height,
    ensures
        0 <= y * width + x < width * height,
{
    assert(0 <= y * width + x < width * height) by (nonlinear_arith)
        requires
            0 <= x < width,
            0 <= y < height,
    ;
}

/// Distinct pixel coordinates map to distinct row-major indices.
pub proof fn lemma_row_major_distinct(width: int, height: int, x1: int, y1: int, x2: int, y2: int)
    requires
        0 <= x1 < width,
        0 <= y1 < height,
        0 <= x2 < width,
        0 <= y2 < height,
        !(x1 == x2 && y1 == y2),
    ensures
        y1 * width + x1 != y2 * width + x2,
{
    assert(y1 * width + x1 != y2 * width + x2) by (nonlinear_arith)
        requires
            0 <= x1 < width,
            0 <= y1 < height,
            0 <= x2 < width,
            0 <= y2 < height,
            !(x1 == x2 && y1 == y2),
    ;
}

} // verus!

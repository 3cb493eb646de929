//! Programmatic glyphs: box drawing, block elements, braille patterns and
//! powerline symbols drawn as vector shapes at exact pixel dimensions,
//! independent of any font.
//!
//! Every renderer's pixels are pinned by its contract to a pure function of
//! `(character, width, height)`, so two independent calls with equal inputs
//! produce byte-identical buffers. Anti-aliasing is deliberately absent:
//! a pixel is either fully opaque or fully transparent, which keeps
//! box-drawing junctions gap-free when neighbouring cells are drawn
//! independently.

use vstd::prelude::*;

use crate::bitmap::Bitmap;
use crate::bitmap::MAX_BITMAP_DIM;
use crate::bitmap::OPAQUE_WHITE;
use crate::bitmap::Shape;
use crate::bitmap::spec_covers;
use crate::bitmap::spec_in_ellipse;

verus! {

/// The four code point ranges rendered programmatically.
pub open spec fn spec_is_programmatic(cp: u32) -> bool {
    ||| 0x2500 <= cp <= 0x257F  // box drawing
    ||| 0x2580 <= cp <= 0x259F  // block elements
    ||| 0x2800 <= cp <= 0x28FF  // braille patterns
    ||| 0xE0B0 <= cp <= 0xE0BF  // powerline symbols
}

/// Whether a character is rendered programmatically rather than from a font.
///
/// Returns true for exactly the code points U+2500..=U+257F,
/// U+2580..=U+259F, U+2800..=U+28FF and U+E0B0..=U+E0BF, and false for
/// every other character.
pub fn is_programmatic_glyph(c: char) -> (r: bool)
    ensures
        r == spec_is_programmatic(c as u32),
{
    let cp = c as u32;
    (0x2500 <= cp && cp <= 0x257F) || (0x2580 <= cp && cp <= 0x259F) || (0x2800 <= cp && cp
        <= 0x28FF) || (0xE0B0 <= cp && cp <= 0xE0BF)
}

/// Stroke thickness for a cell of the given height: one tenth of the height,
/// rounded, and at least one pixel so hairlines stay visible at small sizes.
pub open spec fn spec_stroke_width(height: u32) -> u32 {
    let s = ((height + 5) / 10) as u32;
    if s < 1 {
        1u32
    } else {
        s
    }
}

pub fn stroke_width(height: u32) -> (r: u32)
    requires
        height <= MAX_BITMAP_DIM,
    ensures
        r == spec_stroke_width(height),
{
    let s = (height + 5) / 10;
    if s < 1 {
        1
    } else {
        s
    }
}

/// Valid pixel dimensions for a rendered glyph.
pub open spec fn spec_dims_ok(width: u32, height: u32) -> bool {
    1 <= width <= MAX_BITMAP_DIM && 1 <= height <= MAX_BITMAP_DIM
}

// ===================================================================
// Braille patterns (U+2800..=U+28FF)
//
// The low eight bits of `cp - 0x2800` select dots of a 2 x 4 grid:
// bit 0..2 the left column top to middle, bit 3..5 the right column,
// bit 6 bottom-left, bit 7 bottom-right.
// ===================================================================

/// The dot for grid position (`col` in 0..2, `row` in 0..4), as a filled
/// circle centered in its grid cell (doubled coordinates).
pub open spec fn spec_braille_dot(w: u32, h: u32, col: int, row: int) -> Shape {
    let s = spec_stroke_width(h) as int;
    let r2 = if 6 * s / 5 >= 2 {
        6 * s / 5
    } else {
        2
    };
    Shape::Ellipse {
        cx: (((2 * col + 1) * w) / 2) as i64,
        cy: (((2 * row + 1) * h) / 4) as i64,
        a: r2 as i64,
        b: r2 as i64,
    }
}

/// Which pixels of a braille pattern are set: the union of the dots whose
/// bits are set in the pattern.
pub open spec fn spec_braille_covers(cp: u32, w: u32, h: u32, px: int, py: int) -> bool {
    let p = (cp - 0x2800) as u32;
    ||| (p & 0x01 != 0 && spec_covers(spec_braille_dot(w, h, 0, 0), px, py))
    ||| (p & 0x02 != 0 && spec_covers(spec_braille_dot(w, h, 0, 1), px, py))
    ||| (p & 0x04 != 0 && spec_covers(spec_braille_dot(w, h, 0, 2), px, py))
    ||| (p & 0x08 != 0 && spec_covers(spec_braille_dot(w, h, 1, 0), px, py))
    ||| (p & 0x10 != 0 && spec_covers(spec_braille_dot(w, h, 1, 1), px, py))
    ||| (p & 0x20 != 0 && spec_covers(spec_braille_dot(w, h, 1, 2), px, py))
    ||| (p & 0x40 != 0 && spec_covers(spec_braille_dot(w, h, 0, 3), px, py))
    ||| (p & 0x80 != 0 && spec_covers(spec_braille_dot(w, h, 1, 3), px, py))
}

fn braille_dot(w: u32, h: u32, col: i64, row: i64) -> (r: Shape)
    requires
        spec_dims_ok(w, h),
        0 <= col < 2,
        0 <= row < 4,
    ensures
        r == spec_braille_dot(w, h, col as int, row as int),
        crate::bitmap::shape_bounded(r),
{
    let s = stroke_width(h) as i64;
    let six = 6 * s / 5;
    let r2: i64 = if six >= 2 {
        six
    } else {
        2
    };
    proof {
        crate::bitmap::lemma_mul_abs_bound(2 * col + 1, w as int, 3, 4000);
        crate::bitmap::lemma_mul_abs_bound(2 * row + 1, h as int, 7, 4000);
        assert((2 * col + 1) * (w as int) >= 0 && (2 * row + 1) * (h as int) >= 0)
            by (nonlinear_arith)
            requires
                0 <= col,
                0 <= row,
                w >= 1,
                h >= 1,
        ;
    }
    Shape::Ellipse {
        cx: ((2 * col + 1) * (w as i64)) / 2,
        cy: ((2 * row + 1) * (h as i64)) / 4,
        a: r2,
        b: r2,
    }
}

/// Renders one braille pattern. Returns `None` for characters outside the
/// braille block or degenerate dimensions.
pub fn render_braille(c: char, width: u32, height: u32) -> (r: Option<Bitmap>)
    ensures
        r is Some <==> (0x2800 <= c as u32 <= 0x28FF && spec_dims_ok(width, height)),
        r matches Some(b) ==> {
            &&& b.wf()
            &&& b.width == width
            &&& b.height == height
            &&& forall|x: int, y: int|
                0 <= x < width && 0 <= y < height ==> b.spec_pixel(x, y) == (
                if spec_braille_covers(c as u32, width, height, 2 * x + 1, 2 * y + 1) {
                    OPAQUE_WHITE
                } else {
                    0u32
                })
        },
{
    let cp = c as u32;
    if !(0x2800 <= cp && cp <= 0x28FF) || width < 1 || width > MAX_BITMAP_DIM || height < 1
        || height > MAX_BITMAP_DIM {
        return None;
    }
    let p = cp - 0x2800;
    let mut b = Bitmap::new(width, height);
    if p & 0x01 != 0 {
        b.fill(braille_dot(width, height, 0, 0), OPAQUE_WHITE);
    }
    if p & 0x02 != 0 {
        b.fill(braille_dot(width, height, 0, 1), OPAQUE_WHITE);
    }
    if p & 0x04 != 0 {
        b.fill(braille_dot(width, height, 0, 2), OPAQUE_WHITE);
    }
    if p & 0x08 != 0 {
        b.fill(braille_dot(width, height, 1, 0), OPAQUE_WHITE);
    }
    if p & 0x10 != 0 {
        b.fill(braille_dot(width, height, 1, 1), OPAQUE_WHITE);
    }
    if p & 0x20 != 0 {
        b.fill(braille_dot(width, height, 1, 2), OPAQUE_WHITE);
    }
    if p & 0x40 != 0 {
        b.fill(braille_dot(width, height, 0, 3), OPAQUE_WHITE);
    }
    if p & 0x80 != 0 {
        b.fill(braille_dot(width, height, 1, 3), OPAQUE_WHITE);
    }
    Some(b)
}

// ===================================================================
// Block elements (U+2580..=U+259F)
//
// Half blocks, eighth fractions, quadrants and the three shade
// patterns, each an axis-aligned composition.
// ===================================================================

/// The dot grid of the light shade pattern: the bitmap split into a
/// 4 x 8 grid, a small square centered in every other grid cell.
pub open spec fn spec_shade(w: u32, h: u32, dot: int, parity: int) -> Shape {
    let cw = if 2 * w / 4 >= 1 {
        2 * w / 4
    } else {
        1
    };
    let ch = if 2 * h / 8 >= 1 {
        2 * h / 8
    } else {
        1
    };
    Shape::Dots { cell_w: cw as i64, cell_h: ch as i64, dot: dot as i64, parity: parity as i64 }
}

/// Which pixels of a block element are set (doubled coordinates).
pub open spec fn spec_block_covers(cp: u32, w: u32, h: u32, px: int, py: int) -> bool {
    let wd = w as int;
    let hd = h as int;
    let w2 = 2 * wd;
    let h2 = 2 * hd;
    let s = spec_stroke_width(h) as int;
    if cp == 0x2580 {
        spec_covers(Shape::Rect { x0: 0, y0: 0, x1: w2 as i64, y1: hd as i64 }, px, py)
    } else if 0x2581 <= cp <= 0x2587 {
        let k = (cp - 0x2580) as int;
        spec_covers(
            Shape::Rect { x0: 0, y0: (h2 - (k * h2) / 8) as i64, x1: w2 as i64, y1: h2 as i64 },
            px,
            py,
        )
    } else if cp == 0x2588 {
        spec_covers(Shape::Rect { x0: 0, y0: 0, x1: w2 as i64, y1: h2 as i64 }, px, py)
    } else if 0x2589 <= cp <= 0x258F {
        let m = (8 - (cp - 0x2588)) as int;
        spec_covers(Shape::Rect { x0: 0, y0: 0, x1: ((m * w2) / 8) as i64, y1: h2 as i64 }, px, py)
    } else if cp == 0x2590 {
        spec_covers(Shape::Rect { x0: wd as i64, y0: 0, x1: w2 as i64, y1: h2 as i64 }, px, py)
    } else if cp == 0x2591 {
        spec_covers(spec_shade(w, h, s, 0), px, py)
    } else if cp == 0x2592 {
        spec_covers(spec_shade(w, h, s, 0), px, py) || spec_covers(
            spec_shade(w, h, (3 * s) / 5, 1),
            px,
            py,
        )
    } else if cp == 0x2593 {
        spec_covers(Shape::Rect { x0: 0, y0: 0, x1: w2 as i64, y1: h2 as i64 }, px, py)
    } else if cp == 0x2594 {
        spec_covers(Shape::Rect { x0: 0, y0: 0, x1: w2 as i64, y1: (h2 / 8) as i64 }, px, py)
    } else if cp == 0x2595 {
        spec_covers(
            Shape::Rect { x0: (w2 - w2 / 8) as i64, y0: 0, x1: w2 as i64, y1: h2 as i64 },
            px,
            py,
        )
    } else {
        // Quadrant combinations: which of the four quadrants are filled.
        let ul = spec_covers(Shape::Rect { x0: 0, y0: 0, x1: wd as i64, y1: hd as i64 }, px, py);
        let ur = spec_covers(
            Shape::Rect { x0: wd as i64, y0: 0, x1: w2 as i64, y1: hd as i64 },
            px,
            py,
        );
        let ll = spec_covers(
            Shape::Rect { x0: 0, y0: hd as i64, x1: wd as i64, y1: h2 as i64 },
            px,
            py,
        );
        let lr = spec_covers(
            Shape::Rect { x0: wd as i64, y0: hd as i64, x1: w2 as i64, y1: h2 as i64 },
            px,
            py,
        );
        if cp == 0x2596 {
            ll
        } else if cp == 0x2597 {
            lr
        } else if cp == 0x2598 {
            ul
        } else if cp == 0x2599 {
            ul || ll || lr
        } else if cp == 0x259A {
            ul || lr
        } else if cp == 0x259B {
            ul || ur || ll
        } else if cp == 0x259C {
            ul || ur || lr
        } else if cp == 0x259D {
            ur
        } else if cp == 0x259E {
            ur || ll
        } else {
            ur || ll || lr
        }
    }
}

fn shade(w: u32, h: u32, dot: i64, parity: i64) -> (r: Shape)
    requires
        spec_dims_ok(w, h),
        0 <= dot <= 800,
        0 <= parity <= 1,
    ensures
        r == spec_shade(w, h, dot as int, parity as int),
        crate::bitmap::shape_bounded(r),
{
    let w4 = 2 * (w as i64) / 4;
    let cw = if w4 >= 1 {
        w4
    } else {
        1
    };
    let h8 = 2 * (h as i64) / 8;
    let ch = if h8 >= 1 {
        h8
    } else {
        1
    };
    Shape::Dots { cell_w: cw, cell_h: ch, dot, parity }
}

/// Renders one block element. Returns `None` for characters outside the
/// block-element range or degenerate dimensions.
#[verifier::rlimit(30)]
pub fn render_block(c: char, width: u32, height: u32) -> (r: Option<Bitmap>)
    ensures
        r is Some <==> (0x2580 <= c as u32 <= 0x259F && spec_dims_ok(width, height)),
        r matches Some(b) ==> {
            &&& b.wf()
            &&& b.width == width
            &&& b.height == height
            &&& forall|x: int, y: int|
                0 <= x < width && 0 <= y < height ==> b.spec_pixel(x, y) == (
                if spec_block_covers(c as u32, width, height, 2 * x + 1, 2 * y + 1) {
                    OPAQUE_WHITE
                } else {
                    0u32
                })
        },
{
    let cp = c as u32;
    if !(0x2580 <= cp && cp <= 0x259F) || width < 1 || width > MAX_BITMAP_DIM || height < 1
        || height > MAX_BITMAP_DIM {
        return None;
    }
    let wd = width as i64;
    let hd = height as i64;
    let w2 = 2 * wd;
    let h2 = 2 * hd;
    let s = stroke_width(height) as i64;
    let mut b = Bitmap::new(width, height);
    if cp == 0x2580 {
        b.fill(Shape::Rect { x0: 0, y0: 0, x1: w2, y1: hd }, OPAQUE_WHITE);
    } else if cp <= 0x2587 {
        let k = (cp - 0x2580) as i64;
        proof {
            crate::bitmap::lemma_mul_abs_bound(k as int, h2 as int, 7, 8000);
            assert(k as int * (h2 as int) >= 0) by (nonlinear_arith)
                requires
                    1 <= k,
                    0 <= h2,
            ;
        }
        b.fill(Shape::Rect { x0: 0, y0: h2 - (k * h2) / 8, x1: w2, y1: h2 }, OPAQUE_WHITE);
    } else if cp == 0x2588 {
        b.fill(Shape::Rect { x0: 0, y0: 0, x1: w2, y1: h2 }, OPAQUE_WHITE);
    } else if cp <= 0x258F {
        let m = 8 - (cp - 0x2588) as i64;
        proof {
            crate::bitmap::lemma_mul_abs_bound(m as int, w2 as int, 7, 8000);
            assert(m as int * (w2 as int) >= 0) by (nonlinear_arith)
                requires
                    1 <= m,
                    0 <= w2,
            ;
        }
        b.fill(Shape::Rect { x0: 0, y0: 0, x1: (m * w2) / 8, y1: h2 }, OPAQUE_WHITE);
    } else if cp == 0x2590 {
        b.fill(Shape::Rect { x0: wd, y0: 0, x1: w2, y1: h2 }, OPAQUE_WHITE);
    } else if cp == 0x2591 {
        b.fill(shade(width, height, s, 0), OPAQUE_WHITE);
    } else if cp == 0x2592 {
        b.fill(shade(width, height, s, 0), OPAQUE_WHITE);
        b.fill(shade(width, height, (3 * s) / 5, 1), OPAQUE_WHITE);
    } else if cp == 0x2593 {
        b.fill(Shape::Rect { x0: 0, y0: 0, x1: w2, y1: h2 }, OPAQUE_WHITE);
    } else if cp == 0x2594 {
        b.fill(Shape::Rect { x0: 0, y0: 0, x1: w2, y1: h2 / 8 }, OPAQUE_WHITE);
    } else if cp == 0x2595 {
        b.fill(Shape::Rect { x0: w2 - w2 / 8, y0: 0, x1: w2, y1: h2 }, OPAQUE_WHITE);
    } else {
        let ul = Shape::Rect { x0: 0, y0: 0, x1: wd, y1: hd };
        let ur = Shape::Rect { x0: wd, y0: 0, x1: w2, y1: hd };
        let ll = Shape::Rect { x0: 0, y0: hd, x1: wd, y1: h2 };
        let lr = Shape::Rect { x0: wd, y0: hd, x1: w2, y1: h2 };
        if cp == 0x2596 {
            b.fill(ll, OPAQUE_WHITE);
        } else if cp == 0x2597 {
            b.fill(lr, OPAQUE_WHITE);
        } else if cp == 0x2598 {
            b.fill(ul, OPAQUE_WHITE);
        } else if cp == 0x2599 {
            b.fill(ul, OPAQUE_WHITE);
            b.fill(ll, OPAQUE_WHITE);
            b.fill(lr, OPAQUE_WHITE);
        } else if cp == 0x259A {
            b.fill(ul, OPAQUE_WHITE);
            b.fill(lr, OPAQUE_WHITE);
        } else if cp == 0x259B {
            b.fill(ul, OPAQUE_WHITE);
            b.fill(ur, OPAQUE_WHITE);
            b.fill(ll, OPAQUE_WHITE);
        } else if cp == 0x259C {
            b.fill(ul, OPAQUE_WHITE);
            b.fill(ur, OPAQUE_WHITE);
            b.fill(lr, OPAQUE_WHITE);
        } else if cp == 0x259D {
            b.fill(ur, OPAQUE_WHITE);
        } else if cp == 0x259E {
            b.fill(ur, OPAQUE_WHITE);
            b.fill(ll, OPAQUE_WHITE);
        } else {
            b.fill(ur, OPAQUE_WHITE);
            b.fill(ll, OPAQUE_WHITE);
            b.fill(lr, OPAQUE_WHITE);
        }
    }
    Some(b)
}

// ===================================================================
// Box drawing (U+2500..=U+257F)
//
// Light and heavy lines, dashed variants, corners, T-junctions, the
// cross, double lines with their corners, rounded arc corners and the
// diagonals. The remaining code points of the range are unimplemented
// and render as `None`.
// ===================================================================

/// The box-drawing code points this renderer implements.
pub open spec fn spec_box_implemented(cp: u32) -> bool {
    ||| 0x2500 <= cp <= 0x250C
    ||| cp == 0x250F
    ||| cp == 0x2510
    ||| cp == 0x2513
    ||| cp == 0x2514
    ||| cp == 0x2517
    ||| cp == 0x2518
    ||| cp == 0x251B
    ||| cp == 0x251C
    ||| cp == 0x2524
    ||| cp == 0x252C
    ||| cp == 0x2534
    ||| cp == 0x253C
    ||| cp == 0x2550
    ||| cp == 0x2551
    ||| cp == 0x2554
    ||| cp == 0x2557
    ||| cp == 0x255A
    ||| cp == 0x255D
    ||| 0x256D <= cp <= 0x2573
}

/// Dash length for an axis of doubled length `len` split into `n` dashes
/// separated by gaps of doubled width `gap`.
pub open spec fn spec_dash_len(len: int, gap: int, n: int) -> int {
    let room = len - (n - 1) * gap;
    if room >= 0 {
        room / n
    } else {
        0
    }
}

/// The quarter-circle ring of an arc corner: ring center `(cx, cy)`,
/// radius `r`, half-stroke `s`, restricted to the quadrant pointing back
/// toward the cell center.
pub open spec fn spec_arc_ring(cx: int, cy: int, r: int, s: int, qx: int, qy: int) -> Shape {
    let inner = if r - s >= 0 {
        r - s
    } else {
        0
    };
    Shape::Ring {
        cx: cx as i64,
        cy: cy as i64,
        outer_a: (r + s) as i64,
        outer_b: (r + s) as i64,
        inner_a: inner as i64,
        inner_b: inner as i64,
        qx: qx as i64,
        qy: qy as i64,
    }
}

/// Which pixels of a box-drawing glyph are set (doubled coordinates).
/// Only meaningful for implemented code points.
pub open spec fn spec_box_covers(cp: u32, w: u32, h: u32, px: int, py: int) -> bool {
    let wd = w as int;
    let hd = h as int;
    let w2 = 2 * wd;
    let h2 = 2 * hd;
    let s = spec_stroke_width(h) as int;
    let hz = spec_covers(
        Shape::Rect { x0: 0, y0: (hd - s) as i64, x1: w2 as i64, y1: (hd + s) as i64 },
        px,
        py,
    );
    let hz_heavy = spec_covers(
        Shape::Rect { x0: 0, y0: (hd - 2 * s) as i64, x1: w2 as i64, y1: (hd + 2 * s) as i64 },
        px,
        py,
    );
    let vt = spec_covers(
        Shape::Rect { x0: (wd - s) as i64, y0: 0, x1: (wd + s) as i64, y1: h2 as i64 },
        px,
        py,
    );
    let vt_heavy = spec_covers(
        Shape::Rect { x0: (wd - 2 * s) as i64, y0: 0, x1: (wd + 2 * s) as i64, y1: h2 as i64 },
        px,
        py,
    );
    if cp == 0x2500 {
        hz
    } else if cp == 0x2501 {
        hz_heavy
    } else if cp == 0x2502 {
        vt
    } else if cp == 0x2503 {
        vt_heavy
    } else if 0x2504 <= cp <= 0x250B {
        // Dashed lines: 3 or 4 dashes, light or heavy, horizontal or
        // vertical, with gaps one stroke wide.
        let n = if cp <= 0x2507 {
            3int
        } else {
            4int
        };
        let heavy = cp == 0x2505 || cp == 0x2507 || cp == 0x2509 || cp == 0x250B;
        let vertical = cp == 0x2506 || cp == 0x2507 || cp == 0x250A || cp == 0x250B;
        let half = if heavy {
            2 * s
        } else {
            s
        };
        let gap = 2 * s;
        let len = if vertical {
            h2
        } else {
            w2
        };
        let d = spec_dash_len(len, gap, n);
        let step = d + gap;
        ||| spec_covers(spec_dash_rect(vertical, wd, hd, 0, step, d, half), px, py)
        ||| spec_covers(spec_dash_rect(vertical, wd, hd, 1, step, d, half), px, py)
        ||| spec_covers(spec_dash_rect(vertical, wd, hd, 2, step, d, half), px, py)
        ||| (n == 4 && spec_covers(spec_dash_rect(vertical, wd, hd, 3, step, d, half), px, py))
    } else if cp == 0x250C {
        spec_covers(
            Shape::Rect { x0: (wd - s) as i64, y0: (hd - s) as i64, x1: w2 as i64, y1: (hd + s) as i64 },
            px,
            py,
        ) || spec_covers(
            Shape::Rect { x0: (wd - s) as i64, y0: (hd - s) as i64, x1: (wd + s) as i64, y1: h2 as i64 },
            px,
            py,
        )
    } else if cp == 0x250F {
        spec_covers(
            Shape::Rect {
                x0: (wd - 2 * s) as i64,
                y0: (hd - 2 * s) as i64,
                x1: w2 as i64,
                y1: (hd + 2 * s) as i64,
            },
            px,
            py,
        ) || spec_covers(
            Shape::Rect {
                x0: (wd - 2 * s) as i64,
                y0: (hd - 2 * s) as i64,
                x1: (wd + 2 * s) as i64,
                y1: h2 as i64,
            },
            px,
            py,
        )
    } else if cp == 0x2510 {
        spec_covers(
            Shape::Rect { x0: 0, y0: (hd - s) as i64, x1: (wd + s) as i64, y1: (hd + s) as i64 },
            px,
            py,
        ) || spec_covers(
            Shape::Rect { x0: (wd - s) as i64, y0: (hd - s) as i64, x1: (wd + s) as i64, y1: h2 as i64 },
            px,
            py,
        )
    } else if cp == 0x2513 {
        spec_covers(
            Shape::Rect { x0: 0, y0: (hd - 2 * s) as i64, x1: (wd + 2 * s) as i64, y1: (hd + 2 * s) as i64 },
            px,
            py,
        ) || spec_covers(
            Shape::Rect {
                x0: (wd - 2 * s) as i64,
                y0: (hd - 2 * s) as i64,
                x1: (wd + 2 * s) as i64,
                y1: h2 as i64,
            },
            px,
            py,
        )
    } else if cp == 0x2514 {
        spec_covers(
            Shape::Rect { x0: (wd - s) as i64, y0: (hd - s) as i64, x1: w2 as i64, y1: (hd + s) as i64 },
            px,
            py,
        ) || spec_covers(
            Shape::Rect { x0: (wd - s) as i64, y0: 0, x1: (wd + s) as i64, y1: (hd + s) as i64 },
            px,
            py,
        )
    } else if cp == 0x2517 {
        spec_covers(
            Shape::Rect {
                x0: (wd - 2 * s) as i64,
                y0: (hd - 2 * s) as i64,
                x1: w2 as i64,
                y1: (hd + 2 * s) as i64,
            },
            px,
            py,
        ) || spec_covers(
            Shape::Rect { x0: (wd - 2 * s) as i64, y0: 0, x1: (wd + 2 * s) as i64, y1: (hd + 2 * s) as i64 },
            px,
            py,
        )
    } else if cp == 0x2518 {
        spec_covers(
            Shape::Rect { x0: 0, y0: (hd - s) as i64, x1: (wd + s) as i64, y1: (hd + s) as i64 },
            px,
            py,
        ) || spec_covers(
            Shape::Rect { x0: (wd - s) as i64, y0: 0, x1: (wd + s) as i64, y1: (hd + s) as i64 },
            px,
            py,
        )
    } else if cp == 0x251B {
        spec_covers(
            Shape::Rect { x0: 0, y0: (hd - 2 * s) as i64, x1: (wd + 2 * s) as i64, y1: (hd + 2 * s) as i64 },
            px,
            py,
        ) || spec_covers(
            Shape::Rect { x0: (wd - 2 * s) as i64, y0: 0, x1: (wd + 2 * s) as i64, y1: (hd + 2 * s) as i64 },
            px,
            py,
        )
    } else if cp == 0x251C {
        vt || spec_covers(
            Shape::Rect { x0: (wd - s) as i64, y0: (hd - s) as i64, x1: w2 as i64, y1: (hd + s) as i64 },
            px,
            py,
        )
    } else if cp == 0x2524 {
        vt || spec_covers(
            Shape::Rect { x0: 0, y0: (hd - s) as i64, x1: (wd + s) as i64, y1: (hd + s) as i64 },
            px,
            py,
        )
    } else if cp == 0x252C {
        hz || spec_covers(
            Shape::Rect { x0: (wd - s) as i64, y0: (hd - s) as i64, x1: (wd + s) as i64, y1: h2 as i64 },
            px,
            py,
        )
    } else if cp == 0x2534 {
        hz || spec_covers(
            Shape::Rect { x0: (wd - s) as i64, y0: 0, x1: (wd + s) as i64, y1: (hd + s) as i64 },
            px,
            py,
        )
    } else if cp == 0x253C {
        hz || vt
    } else if 0x2550 <= cp <= 0x255D {
        spec_double_covers(cp, w, h, px, py)
    } else if 0x256D <= cp <= 0x2570 {
        spec_arc_covers(cp, w, h, px, py)
    } else {
        let rise = spec_covers(
            Shape::Seg { ax: 0, ay: h2 as i64, bx: w2 as i64, by: 0, stroke: (2 * s) as i64 },
            px,
            py,
        );
        let fall = spec_covers(
            Shape::Seg { ax: 0, ay: 0, bx: w2 as i64, by: h2 as i64, stroke: (2 * s) as i64 },
            px,
            py,
        );
        if cp == 0x2571 {
            rise
        } else if cp == 0x2572 {
            fall
        } else {
            rise || fall
        }
    }
}

/// One dash of a dashed line: dash `i` along the axis, with half-stroke
/// `half` across the other axis.
pub open spec fn spec_dash_rect(
    vertical: bool,
    wd: int,
    hd: int,
    i: int,
    step: int,
    d: int,
    half: int,
) -> Shape {
    if vertical {
        Shape::Rect {
            x0: (wd - half) as i64,
            y0: (i * step) as i64,
            x1: (wd + half) as i64,
            y1: (i * step + d) as i64,
        }
    } else {
        Shape::Rect {
            x0: (i * step) as i64,
            y0: (hd - half) as i64,
            x1: (i * step + d) as i64,
            y1: (hd + half) as i64,
        }
    }
}

/// The double-line glyphs: each is a union of up to four thin rects.
pub open spec fn spec_double_covers(cp: u32, w: u32, h: u32, px: int, py: int) -> bool {
    let wd = w as int;
    let hd = h as int;
    let w2 = 2 * wd;
    let h2 = 2 * hd;
    let s = spec_stroke_width(h) as int;
    let t = if 6 * s / 5 >= 2 {
        6 * s / 5
    } else {
        2
    };
    let g = 8 * s / 5;
    if cp == 0x2550 {
        spec_covers(hrect(0, w2, hd - g, t), px, py) || spec_covers(hrect(0, w2, hd + g, t), px, py)
    } else if cp == 0x2551 {
        spec_covers(vrect(wd - g, 0, h2, t), px, py) || spec_covers(vrect(wd + g, 0, h2, t), px, py)
    } else if cp == 0x2554 {
        ||| spec_covers(hrect(wd - g, w2, hd - g, t), px, py)
        ||| spec_covers(vrect(wd - g, hd - g, h2, t), px, py)
        ||| spec_covers(hrect(wd + g - t / 2, w2, hd + g, t), px, py)
        ||| spec_covers(vrect(wd + g, hd + g - t / 2, h2, t), px, py)
    } else if cp == 0x2557 {
        ||| spec_covers(hrect(0, wd + g, hd - g, t), px, py)
        ||| spec_covers(vrect(wd + g, hd - g, h2, t), px, py)
        ||| spec_covers(hrect(0, wd - g + t / 2, hd + g, t), px, py)
        ||| spec_covers(vrect(wd - g, hd + g - t / 2, h2, t), px, py)
    } else if cp == 0x255A {
        ||| spec_covers(hrect(wd - g, w2, hd + g, t), px, py)
        ||| spec_covers(vrect(wd - g, 0, hd + g, t), px, py)
        ||| spec_covers(hrect(wd + g - t / 2, w2, hd - g, t), px, py)
        ||| spec_covers(vrect(wd + g, 0, hd - g + t / 2, t), px, py)
    } else {
        ||| spec_covers(hrect(0, wd + g, hd + g, t), px, py)
        ||| spec_covers(vrect(wd + g, 0, hd + g, t), px, py)
        ||| spec_covers(hrect(0, wd - g + t / 2, hd - g, t), px, py)
        ||| spec_covers(vrect(wd - g, 0, hd - g + t / 2, t), px, py)
    }
}

/// A horizontal bar from `x0` to `x1` centered on `yc` with thickness `t`.
pub open spec fn hrect(x0: int, x1: int, yc: int, t: int) -> Shape {
    Shape::Rect { x0: x0 as i64, y0: (yc - t / 2) as i64, x1: x1 as i64, y1: (yc - t / 2 + t) as i64 }
}

/// A vertical bar from `y0` to `y1` centered on `xc` with thickness `t`.
pub open spec fn vrect(xc: int, y0: int, y1: int, t: int) -> Shape {
    Shape::Rect { x0: (xc - t / 2) as i64, y0: y0 as i64, x1: (xc - t / 2 + t) as i64, y1: y1 as i64 }
}

/// The rounded arc corners: two straight stubs and a quarter ring.
pub open spec fn spec_arc_covers(cp: u32, w: u32, h: u32, px: int, py: int) -> bool {
    let wd = w as int;
    let hd = h as int;
    let w2 = 2 * wd;
    let h2 = 2 * hd;
    let s = spec_stroke_width(h) as int;
    let r = 4 * wd / 5;
    if cp == 0x256D {
        ||| spec_covers(hrect(wd + r, w2, hd, 2 * s), px, py)
        ||| spec_covers(vrect(wd, hd + r, h2, 2 * s), px, py)
        ||| spec_covers(spec_arc_ring(wd + r, hd + r, r, s, -1, -1), px, py)
    } else if cp == 0x256E {
        ||| spec_covers(hrect(0, wd - r, hd, 2 * s), px, py)
        ||| spec_covers(vrect(wd, hd + r, h2, 2 * s), px, py)
        ||| spec_covers(spec_arc_ring(wd - r, hd + r, r, s, 1, -1), px, py)
    } else if cp == 0x256F {
        ||| spec_covers(hrect(0, wd - r, hd, 2 * s), px, py)
        ||| spec_covers(vrect(wd, 0, hd - r, 2 * s), px, py)
        ||| spec_covers(spec_arc_ring(wd - r, hd - r, r, s, 1, 1), px, py)
    } else {
        ||| spec_covers(hrect(wd + r, w2, hd, 2 * s), px, py)
        ||| spec_covers(vrect(wd, 0, hd - r, 2 * s), px, py)
        ||| spec_covers(spec_arc_ring(wd + r, hd - r, r, s, -1, 1), px, py)
    }
}

fn exec_hrect(x0: i64, x1: i64, yc: i64, t: i64) -> (r: Shape)
    requires
        -8192 <= x0 <= 8192,
        -8192 <= x1 <= 8192,
        -4800 <= yc <= 4800,
        0 <= t <= 1600,
    ensures
        r == hrect(x0 as int, x1 as int, yc as int, t as int),
        crate::bitmap::shape_bounded(r),
{
    Shape::Rect { x0, y0: yc - t / 2, x1, y1: yc - t / 2 + t }
}

fn exec_vrect(xc: i64, y0: i64, y1: i64, t: i64) -> (r: Shape)
    requires
        -4800 <= xc <= 4800,
        -8192 <= y0 <= 8192,
        -8192 <= y1 <= 8192,
        0 <= t <= 1600,
    ensures
        r == vrect(xc as int, y0 as int, y1 as int, t as int),
        crate::bitmap::shape_bounded(r),
{
    Shape::Rect { x0: xc - t / 2, y0, x1: xc - t / 2 + t, y1 }
}

fn exec_arc_ring(cx: i64, cy: i64, radius: i64, s: i64, qx: i64, qy: i64) -> (r: Shape)
    requires
        -8192 <= cx <= 8192,
        -8192 <= cy <= 8192,
        0 <= radius <= 4000,
        0 <= s <= 800,
        -1 <= qx <= 1,
        -1 <= qy <= 1,
    ensures
        r == spec_arc_ring(cx as int, cy as int, radius as int, s as int, qx as int, qy as int),
        crate::bitmap::shape_bounded(r),
{
    let inner = if radius - s >= 0 {
        radius - s
    } else {
        0
    };
    Shape::Ring {
        cx,
        cy,
        outer_a: radius + s,
        outer_b: radius + s,
        inner_a: inner,
        inner_b: inner,
        qx,
        qy,
    }
}

fn exec_dash_rect(vertical: bool, wd: i64, hd: i64, i: i64, step: i64, d: i64, half: i64) -> (r:
    Shape)
    requires
        0 <= wd <= 4000,
        0 <= hd <= 4000,
        0 <= i <= 3,
        0 <= d,
        0 <= step,
        i * step + d <= 8192,
        0 <= half <= 1600,
    ensures
        r == spec_dash_rect(
            vertical,
            wd as int,
            hd as int,
            i as int,
            step as int,
            d as int,
            half as int,
        ),
        crate::bitmap::shape_bounded(r),
{
    proof {
        assert(0 <= i * step) by (nonlinear_arith)
            requires
                0 <= i,
                0 <= step,
        ;
    }
    if vertical {
        Shape::Rect { x0: wd - half, y0: i * step, x1: wd + half, y1: i * step + d }
    } else {
        Shape::Rect { x0: i * step, y0: hd - half, x1: i * step + d, y1: hd + half }
    }
}

/// Renders one box-drawing glyph. Returns `None` for characters outside the
/// box-drawing range, for unimplemented code points of it, and for
/// degenerate dimensions.
pub fn render_box(c: char, width: u32, height: u32) -> (r: Option<Bitmap>)
    ensures
        r is Some <==> (0x2500 <= c as u32 <= 0x257F && spec_box_implemented(c as u32)
            && spec_dims_ok(width, height)),
        r matches Some(b) ==> {
            &&& b.wf()
            &&& b.width == width
            &&& b.height == height
            &&& forall|x: int, y: int|
                0 <= x < width && 0 <= y < height ==> b.spec_pixel(x, y) == (
                if spec_box_covers(c as u32, width, height, 2 * x + 1, 2 * y + 1) {
                    OPAQUE_WHITE
                } else {
                    0u32
                })
        },
{
    let cp = c as u32;
    if !(0x2500 <= cp && cp <= 0x257F) || width < 1 || width > MAX_BITMAP_DIM || height < 1
        || height > MAX_BITMAP_DIM {
        return None;
    }
    if cp <= 0x250B {
        Some(box_lines(cp, width, height))
    } else if cp == 0x250C || cp == 0x250F || cp == 0x2510 || cp == 0x2513 || cp == 0x2514 || cp
        == 0x2517 || cp == 0x2518 || cp == 0x251B || cp == 0x251C || cp == 0x2524 || cp == 0x252C
        || cp == 0x2534 || cp == 0x253C {
        Some(box_corners(cp, width, height))
    } else if cp == 0x2550 || cp == 0x2551 || cp == 0x2554 || cp == 0x2557 || cp == 0x255A || cp
        == 0x255D {
        Some(box_doubles(cp, width, height))
    } else if 0x256D <= cp && cp <= 0x2573 {
        Some(box_arcs(cp, width, height))
    } else {
        None
    }
}

#[verifier::rlimit(60)]
fn box_lines(cp: u32, width: u32, height: u32) -> (b: Bitmap)
    requires
        0x2500 <= cp <= 0x250B,
        spec_dims_ok(width, height),
    ensures
        b.wf(),
        b.width == width,
        b.height == height,
        forall|x: int, y: int|
            0 <= x < width && 0 <= y < height ==> b.spec_pixel(x, y) == (
            if spec_box_covers(cp, width, height, 2 * x + 1, 2 * y + 1) {
                OPAQUE_WHITE
            } else {
                0u32
            }),
{
    let wd = width as i64;
    let hd = height as i64;
    let w2 = 2 * wd;
    let h2 = 2 * hd;
    let s = stroke_width(height) as i64;
    let mut b = Bitmap::new(width, height);
    if cp == 0x2500 {
        b.fill(Shape::Rect { x0: 0, y0: hd - s, x1: w2, y1: hd + s }, OPAQUE_WHITE);
    } else if cp == 0x2501 {
        b.fill(Shape::Rect { x0: 0, y0: hd - 2 * s, x1: w2, y1: hd + 2 * s }, OPAQUE_WHITE);
    } else if cp == 0x2502 {
        b.fill(Shape::Rect { x0: wd - s, y0: 0, x1: wd + s, y1: h2 }, OPAQUE_WHITE);
    } else if cp == 0x2503 {
        b.fill(Shape::Rect { x0: wd - 2 * s, y0: 0, x1: wd + 2 * s, y1: h2 }, OPAQUE_WHITE);
    } else {
        let n: i64 = if cp <= 0x2507 {
            3
        } else {
            4
        };
        let heavy = cp == 0x2505 || cp == 0x2507 || cp == 0x2509 || cp == 0x250B;
        let vertical = cp == 0x2506 || cp == 0x2507 || cp == 0x250A || cp == 0x250B;
        let half = if heavy {
            2 * s
        } else {
            s
        };
        let gap = 2 * s;
        let len = if vertical {
            h2
        } else {
            w2
        };
        let gtot = if n == 3 {
            2 * gap
        } else {
            3 * gap
        };
        let room = len - gtot;
        let d = if room >= 0 {
            room / n
        } else {
            0
        };
        let step = d + gap;
        proof {
            assert(gtot as int == (n as int - 1) * (gap as int)) by (nonlinear_arith)
                requires
                    n == 3i64 || n == 4i64,
                    gtot == if n == 3i64 {
                        2 * gap
                    } else {
                        3 * gap
                    },
                    0 <= gap <= 800,
            ;
            if room >= 0 {
                vstd::arithmetic::div_mod::lemma_fundamental_div_mod(room as int, n as int);
                vstd::arithmetic::div_mod::lemma_mod_division_less_than_divisor(
                    room as int,
                    n as int,
                );
                vstd::arithmetic::div_mod::lemma_div_pos_is_pos(room as int, n as int);
                assert(n as int * (d as int) <= room as int);
            }
            assert(2 * (step as int) + d as int <= 8192);
            assert(n == 4 ==> 3 * (step as int) + d as int <= 8192);
        }
        b.fill(exec_dash_rect(vertical, wd, hd, 0, step, d, half), OPAQUE_WHITE);
        b.fill(exec_dash_rect(vertical, wd, hd, 1, step, d, half), OPAQUE_WHITE);
        b.fill(exec_dash_rect(vertical, wd, hd, 2, step, d, half), OPAQUE_WHITE);
        if n == 4 {
            b.fill(exec_dash_rect(vertical, wd, hd, 3, step, d, half), OPAQUE_WHITE);
        }
    }
    b
}

#[verifier::rlimit(60)]
fn box_corners(cp: u32, width: u32, height: u32) -> (b: Bitmap)
    requires
        cp == 0x250C || cp == 0x250F || cp == 0x2510 || cp == 0x2513 || cp == 0x2514 || cp == 0x2517
            || cp == 0x2518 || cp == 0x251B || cp == 0x251C || cp == 0x2524 || cp == 0x252C || cp
            == 0x2534 || cp == 0x253C,
        spec_dims_ok(width, height),
    ensures
        b.wf(),
        b.width == width,
        b.height == height,
        forall|x: int, y: int|
            0 <= x < width && 0 <= y < height ==> b.spec_pixel(x, y) == (
            if spec_box_covers(cp, width, height, 2 * x + 1, 2 * y + 1) {
                OPAQUE_WHITE
            } else {
                0u32
            }),
{
    let wd = width as i64;
    let hd = height as i64;
    let w2 = 2 * wd;
    let h2 = 2 * hd;
    let s = stroke_width(height) as i64;
    let mut b = Bitmap::new(width, height);
    if cp == 0x250C {
        b.fill(Shape::Rect { x0: wd - s, y0: hd - s, x1: w2, y1: hd + s }, OPAQUE_WHITE);
        b.fill(Shape::Rect { x0: wd - s, y0: hd - s, x1: wd + s, y1: h2 }, OPAQUE_WHITE);
    } else if cp == 0x250F {
        b.fill(Shape::Rect { x0: wd - 2 * s, y0: hd - 2 * s, x1: w2, y1: hd + 2 * s }, OPAQUE_WHITE);
        b.fill(Shape::Rect { x0: wd - 2 * s, y0: hd - 2 * s, x1: wd + 2 * s, y1: h2 }, OPAQUE_WHITE);
    } else if cp == 0x2510 {
        b.fill(Shape::Rect { x0: 0, y0: hd - s, x1: wd + s, y1: hd + s }, OPAQUE_WHITE);
        b.fill(Shape::Rect { x0: wd - s, y0: hd - s, x1: wd + s, y1: h2 }, OPAQUE_WHITE);
    } else if cp == 0x2513 {
        b.fill(Shape::Rect { x0: 0, y0: hd - 2 * s, x1: wd + 2 * s, y1: hd + 2 * s }, OPAQUE_WHITE);
        b.fill(Shape::Rect { x0: wd - 2 * s, y0: hd - 2 * s, x1: wd + 2 * s, y1: h2 }, OPAQUE_WHITE);
    } else if cp == 0x2514 {
        b.fill(Shape::Rect { x0: wd - s, y0: hd - s, x1: w2, y1: hd + s }, OPAQUE_WHITE);
        b.fill(Shape::Rect { x0: wd - s, y0: 0, x1: wd + s, y1: hd + s }, OPAQUE_WHITE);
    } else if cp == 0x2517 {
        b.fill(Shape::Rect { x0: wd - 2 * s, y0: hd - 2 * s, x1: w2, y1: hd + 2 * s }, OPAQUE_WHITE);
        b.fill(Shape::Rect { x0: wd - 2 * s, y0: 0, x1: wd + 2 * s, y1: hd + 2 * s }, OPAQUE_WHITE);
    } else if cp == 0x2518 {
        b.fill(Shape::Rect { x0: 0, y0: hd - s, x1: wd + s, y1: hd + s }, OPAQUE_WHITE);
        b.fill(Shape::Rect { x0: wd - s, y0: 0, x1: wd + s, y1: hd + s }, OPAQUE_WHITE);
    } else if cp == 0x251B {
        b.fill(Shape::Rect { x0: 0, y0: hd - 2 * s, x1: wd + 2 * s, y1: hd + 2 * s }, OPAQUE_WHITE);
        b.fill(Shape::Rect { x0: wd - 2 * s, y0: 0, x1: wd + 2 * s, y1: hd + 2 * s }, OPAQUE_WHITE);
    } else if cp == 0x251C {
        b.fill(Shape::Rect { x0: wd - s, y0: 0, x1: wd + s, y1: h2 }, OPAQUE_WHITE);
        b.fill(Shape::Rect { x0: wd - s, y0: hd - s, x1: w2, y1: hd + s }, OPAQUE_WHITE);
    } else if cp == 0x2524 {
        b.fill(Shape::Rect { x0: wd - s, y0: 0, x1: wd + s, y1: h2 }, OPAQUE_WHITE);
        b.fill(Shape::Rect { x0: 0, y0: hd - s, x1: wd + s, y1: hd + s }, OPAQUE_WHITE);
    } else if cp == 0x252C {
        b.fill(Shape::Rect { x0: 0, y0: hd - s, x1: w2, y1: hd + s }, OPAQUE_WHITE);
        b.fill(Shape::Rect { x0: wd - s, y0: hd - s, x1: wd + s, y1: h2 }, OPAQUE_WHITE);
    } else if cp == 0x2534 {
        b.fill(Shape::Rect { x0: 0, y0: hd - s, x1: w2, y1: hd + s }, OPAQUE_WHITE);
        b.fill(Shape::Rect { x0: wd - s, y0: 0, x1: wd + s, y1: hd + s }, OPAQUE_WHITE);
    } else {
        b.fill(Shape::Rect { x0: 0, y0: hd - s, x1: w2, y1: hd + s }, OPAQUE_WHITE);
        b.fill(Shape::Rect { x0: wd - s, y0: 0, x1: wd + s, y1: h2 }, OPAQUE_WHITE);
    }
    b
}

#[verifier::rlimit(60)]
fn box_doubles(cp: u32, width: u32, height: u32) -> (b: Bitmap)
    requires
        cp == 0x2550 || cp == 0x2551 || cp == 0x2554 || cp == 0x2557 || cp == 0x255A || cp
            == 0x255D,
        spec_dims_ok(width, height),
    ensures
        b.wf(),
        b.width == width,
        b.height == height,
        forall|x: int, y: int|
            0 <= x < width && 0 <= y < height ==> b.spec_pixel(x, y) == (
            if spec_box_covers(cp, width, height, 2 * x + 1, 2 * y + 1) {
                OPAQUE_WHITE
            } else {
                0u32
            }),
{
    let wd = width as i64;
    let hd = height as i64;
    let w2 = 2 * wd;
    let h2 = 2 * hd;
    let s = stroke_width(height) as i64;
    let six = 6 * s / 5;
    let t: i64 = if six >= 2 {
        six
    } else {
        2
    };
    let g = 8 * s / 5;
    let mut b = Bitmap::new(width, height);
    if cp == 0x2550 {
        b.fill(exec_hrect(0, w2, hd - g, t), OPAQUE_WHITE);
        b.fill(exec_hrect(0, w2, hd + g, t), OPAQUE_WHITE);
    } else if cp == 0x2551 {
        b.fill(exec_vrect(wd - g, 0, h2, t), OPAQUE_WHITE);
        b.fill(exec_vrect(wd + g, 0, h2, t), OPAQUE_WHITE);
    } else if cp == 0x2554 {
        b.fill(exec_hrect(wd - g, w2, hd - g, t), OPAQUE_WHITE);
        b.fill(exec_vrect(wd - g, hd - g, h2, t), OPAQUE_WHITE);
        b.fill(exec_hrect(wd + g - t / 2, w2, hd + g, t), OPAQUE_WHITE);
        b.fill(exec_vrect(wd + g, hd + g - t / 2, h2, t), OPAQUE_WHITE);
    } else if cp == 0x2557 {
        b.fill(exec_hrect(0, wd + g, hd - g, t), OPAQUE_WHITE);
        b.fill(exec_vrect(wd + g, hd - g, h2, t), OPAQUE_WHITE);
        b.fill(exec_hrect(0, wd - g + t / 2, hd + g, t), OPAQUE_WHITE);
        b.fill(exec_vrect(wd - g, hd + g - t / 2, h2, t), OPAQUE_WHITE);
    } else if cp == 0x255A {
        b.fill(exec_hrect(wd - g, w2, hd + g, t), OPAQUE_WHITE);
        b.fill(exec_vrect(wd - g, 0, hd + g, t), OPAQUE_WHITE);
        b.fill(exec_hrect(wd + g - t / 2, w2, hd - g, t), OPAQUE_WHITE);
        b.fill(exec_vrect(wd + g, 0, hd - g + t / 2, t), OPAQUE_WHITE);
    } else {
        b.fill(exec_hrect(0, wd + g, hd + g, t), OPAQUE_WHITE);
        b.fill(exec_vrect(wd + g, 0, hd + g, t), OPAQUE_WHITE);
        b.fill(exec_hrect(0, wd - g + t / 2, hd - g, t), OPAQUE_WHITE);
        b.fill(exec_vrect(wd - g, 0, hd - g + t / 2, t), OPAQUE_WHITE);
    }
    b
}

#[verifier::rlimit(60)]
fn box_arcs(cp: u32, width: u32, height: u32) -> (b: Bitmap)
    requires
        0x256D <= cp <= 0x2573,
        spec_dims_ok(width, height),
    ensures
        b.wf(),
        b.width == width,
        b.height == height,
        forall|x: int, y: int|
            0 <= x < width && 0 <= y < height ==> b.spec_pixel(x, y) == (
            if spec_box_covers(cp, width, height, 2 * x + 1, 2 * y + 1) {
                OPAQUE_WHITE
            } else {
                0u32
            }),
{
    let wd = width as i64;
    let hd = height as i64;
    let w2 = 2 * wd;
    let h2 = 2 * hd;
    let s = stroke_width(height) as i64;
    let r = 4 * wd / 5;
    let mut b = Bitmap::new(width, height);
    if cp == 0x256D {
        b.fill(exec_hrect(wd + r, w2, hd, 2 * s), OPAQUE_WHITE);
        b.fill(exec_vrect(wd, hd + r, h2, 2 * s), OPAQUE_WHITE);
        b.fill(exec_arc_ring(wd + r, hd + r, r, s, -1, -1), OPAQUE_WHITE);
    } else if cp == 0x256E {
        b.fill(exec_hrect(0, wd - r, hd, 2 * s), OPAQUE_WHITE);
        b.fill(exec_vrect(wd, hd + r, h2, 2 * s), OPAQUE_WHITE);
        b.fill(exec_arc_ring(wd - r, hd + r, r, s, 1, -1), OPAQUE_WHITE);
    } else if cp == 0x256F {
        b.fill(exec_hrect(0, wd - r, hd, 2 * s), OPAQUE_WHITE);
        b.fill(exec_vrect(wd, 0, hd - r, 2 * s), OPAQUE_WHITE);
        b.fill(exec_arc_ring(wd - r, hd - r, r, s, 1, 1), OPAQUE_WHITE);
    } else if cp == 0x2570 {
        b.fill(exec_hrect(wd + r, w2, hd, 2 * s), OPAQUE_WHITE);
        b.fill(exec_vrect(wd, 0, hd - r, 2 * s), OPAQUE_WHITE);
        b.fill(exec_arc_ring(wd + r, hd - r, r, s, -1, 1), OPAQUE_WHITE);
    } else if cp == 0x2571 {
        b.fill(Shape::Seg { ax: 0, ay: h2, bx: w2, by: 0, stroke: 2 * s }, OPAQUE_WHITE);
    } else if cp == 0x2572 {
        b.fill(Shape::Seg { ax: 0, ay: 0, bx: w2, by: h2, stroke: 2 * s }, OPAQUE_WHITE);
    } else {
        b.fill(Shape::Seg { ax: 0, ay: h2, bx: w2, by: 0, stroke: 2 * s }, OPAQUE_WHITE);
        b.fill(Shape::Seg { ax: 0, ay: 0, bx: w2, by: h2, stroke: 2 * s }, OPAQUE_WHITE);
    }
    b
}

// ===================================================================
// Powerline symbols (U+E0B0..=U+E0BF)
//
// Solid and hollow triangular separators, their curved (half-ellipse)
// variants, and the diagonal separators.
// ===================================================================

/// The half-ellipse ring of a hollow curved separator.
pub open spec fn spec_curve_ring(cx: int, hd: int, w2: int, s: int) -> Shape {
    let ia = if w2 - 2 * s >= 0 {
        w2 - 2 * s
    } else {
        0
    };
    let ib = if hd - 2 * s >= 0 {
        hd - 2 * s
    } else {
        0
    };
    Shape::Ring {
        cx: cx as i64,
        cy: hd as i64,
        outer_a: w2 as i64,
        outer_b: hd as i64,
        inner_a: ia as i64,
        inner_b: ib as i64,
        qx: 0,
        qy: 0,
    }
}

/// Which pixels of a powerline symbol are set (doubled coordinates).
pub open spec fn spec_powerline_covers(cp: u32, w: u32, h: u32, px: int, py: int) -> bool {
    let wd = w as int;
    let hd = h as int;
    let w2 = 2 * wd;
    let h2 = 2 * hd;
    let s = spec_stroke_width(h) as int;
    let top = spec_covers(
        Shape::Seg { ax: 0, ay: 0, bx: w2 as i64, by: 0, stroke: s as i64 },
        px,
        py,
    );
    let bottom = spec_covers(
        Shape::Seg { ax: 0, ay: h2 as i64, bx: w2 as i64, by: h2 as i64, stroke: s as i64 },
        px,
        py,
    );
    if cp == 0xE0B0 {
        spec_covers(
            Shape::Tri { ax: 0, ay: 0, bx: 0, by: h2 as i64, cx: w2 as i64, cy: hd as i64 },
            px,
            py,
        )
    } else if cp == 0xE0B1 {
        spec_covers(
            Shape::Seg { ax: 0, ay: 0, bx: w2 as i64, by: hd as i64, stroke: s as i64 },
            px,
            py,
        ) || spec_covers(
            Shape::Seg { ax: 0, ay: h2 as i64, bx: w2 as i64, by: hd as i64, stroke: s as i64 },
            px,
            py,
        )
    } else if cp == 0xE0B2 {
        spec_covers(
            Shape::Tri { ax: w2 as i64, ay: 0, bx: w2 as i64, by: h2 as i64, cx: 0, cy: hd as i64 },
            px,
            py,
        )
    } else if cp == 0xE0B3 {
        spec_covers(
            Shape::Seg { ax: w2 as i64, ay: 0, bx: 0, by: hd as i64, stroke: s as i64 },
            px,
            py,
        ) || spec_covers(
            Shape::Seg { ax: w2 as i64, ay: h2 as i64, bx: 0, by: hd as i64, stroke: s as i64 },
            px,
            py,
        )
    } else if cp == 0xE0B4 {
        spec_covers(
            Shape::Ellipse { cx: w2 as i64, cy: hd as i64, a: w2 as i64, b: hd as i64 },
            px,
            py,
        )
    } else if cp == 0xE0B5 {
        spec_covers(spec_curve_ring(w2, hd, w2, s), px, py) || top || bottom
    } else if cp == 0xE0B6 {
        spec_covers(Shape::Ellipse { cx: 0, cy: hd as i64, a: w2 as i64, b: hd as i64 }, px, py)
    } else if cp == 0xE0B7 {
        spec_covers(spec_curve_ring(0, hd, w2, s), px, py) || top || bottom
    } else if cp == 0xE0B8 {
        spec_covers(
            Shape::Tri { ax: 0, ay: h2 as i64, bx: w2 as i64, by: h2 as i64, cx: 0, cy: 0 },
            px,
            py,
        )
    } else if cp == 0xE0B9 || cp == 0xE0BF {
        spec_covers(
            Shape::Seg { ax: w2 as i64, ay: 0, bx: 0, by: h2 as i64, stroke: s as i64 },
            px,
            py,
        )
    } else if cp == 0xE0BA {
        spec_covers(
            Shape::Tri {
                ax: 0,
                ay: h2 as i64,
                bx: w2 as i64,
                by: h2 as i64,
                cx: w2 as i64,
                cy: 0,
            },
            px,
            py,
        )
    } else if cp == 0xE0BB || cp == 0xE0BD {
        spec_covers(
            Shape::Seg { ax: 0, ay: 0, bx: w2 as i64, by: h2 as i64, stroke: s as i64 },
            px,
            py,
        )
    } else if cp == 0xE0BC {
        spec_covers(
            Shape::Tri { ax: 0, ay: 0, bx: w2 as i64, by: 0, cx: 0, cy: h2 as i64 },
            px,
            py,
        )
    } else {
        spec_covers(
            Shape::Tri { ax: 0, ay: 0, bx: w2 as i64, by: 0, cx: w2 as i64, cy: h2 as i64 },
            px,
            py,
        )
    }
}

/// Renders one powerline symbol. Returns `None` for characters outside the
/// powerline range or degenerate dimensions.
#[verifier::rlimit(60)]
pub fn render_powerline(c: char, width: u32, height: u32) -> (r: Option<Bitmap>)
    ensures
        r is Some <==> (0xE0B0 <= c as u32 <= 0xE0BF && spec_dims_ok(width, height)),
        r matches Some(b) ==> {
            &&& b.wf()
            &&& b.width == width
            &&& b.height == height
            &&& forall|x: int, y: int|
                0 <= x < width && 0 <= y < height ==> b.spec_pixel(x, y) == (
                if spec_powerline_covers(c as u32, width, height, 2 * x + 1, 2 * y + 1) {
                    OPAQUE_WHITE
                } else {
                    0u32
                })
        },
{
    let cp = c as u32;
    if !(0xE0B0 <= cp && cp <= 0xE0BF) || width < 1 || width > MAX_BITMAP_DIM || height < 1
        || height > MAX_BITMAP_DIM {
        return None;
    }
    let wd = width as i64;
    let hd = height as i64;
    let w2 = 2 * wd;
    let h2 = 2 * hd;
    let s = stroke_width(height) as i64;
    let mut b = Bitmap::new(width, height);
    if cp == 0xE0B0 {
        b.fill(Shape::Tri { ax: 0, ay: 0, bx: 0, by: h2, cx: w2, cy: hd }, OPAQUE_WHITE);
    } else if cp == 0xE0B1 {
        b.fill(Shape::Seg { ax: 0, ay: 0, bx: w2, by: hd, stroke: s }, OPAQUE_WHITE);
        b.fill(Shape::Seg { ax: 0, ay: h2, bx: w2, by: hd, stroke: s }, OPAQUE_WHITE);
    } else if cp == 0xE0B2 {
        b.fill(Shape::Tri { ax: w2, ay: 0, bx: w2, by: h2, cx: 0, cy: hd }, OPAQUE_WHITE);
    } else if cp == 0xE0B3 {
        b.fill(Shape::Seg { ax: w2, ay: 0, bx: 0, by: hd, stroke: s }, OPAQUE_WHITE);
        b.fill(Shape::Seg { ax: w2, ay: h2, bx: 0, by: hd, stroke: s }, OPAQUE_WHITE);
    } else if cp == 0xE0B4 {
        b.fill(Shape::Ellipse { cx: w2, cy: hd, a: w2, b: hd }, OPAQUE_WHITE);
    } else if cp == 0xE0B5 {
        b.fill(exec_curve_ring(w2, hd, w2, s), OPAQUE_WHITE);
        b.fill(Shape::Seg { ax: 0, ay: 0, bx: w2, by: 0, stroke: s }, OPAQUE_WHITE);
        b.fill(Shape::Seg { ax: 0, ay: h2, bx: w2, by: h2, stroke: s }, OPAQUE_WHITE);
    } else if cp == 0xE0B6 {
        b.fill(Shape::Ellipse { cx: 0, cy: hd, a: w2, b: hd }, OPAQUE_WHITE);
    } else if cp == 0xE0B7 {
        b.fill(exec_curve_ring(0, hd, w2, s), OPAQUE_WHITE);
        b.fill(Shape::Seg { ax: 0, ay: 0, bx: w2, by: 0, stroke: s }, OPAQUE_WHITE);
        b.fill(Shape::Seg { ax: 0, ay: h2, bx: w2, by: h2, stroke: s }, OPAQUE_WHITE);
    } else if cp == 0xE0B8 {
        b.fill(Shape::Tri { ax: 0, ay: h2, bx: w2, by: h2, cx: 0, cy: 0 }, OPAQUE_WHITE);
    } else if cp == 0xE0B9 || cp == 0xE0BF {
        b.fill(Shape::Seg { ax: w2, ay: 0, bx: 0, by: h2, stroke: s }, OPAQUE_WHITE);
    } else if cp == 0xE0BA {
        b.fill(Shape::Tri { ax: 0, ay: h2, bx: w2, by: h2, cx: w2, cy: 0 }, OPAQUE_WHITE);
    } else if cp == 0xE0BB || cp == 0xE0BD {
        b.fill(Shape::Seg { ax: 0, ay: 0, bx: w2, by: h2, stroke: s }, OPAQUE_WHITE);
    } else if cp == 0xE0BC {
        b.fill(Shape::Tri { ax: 0, ay: 0, bx: w2, by: 0, cx: 0, cy: h2 }, OPAQUE_WHITE);
    } else {
        b.fill(Shape::Tri { ax: 0, ay: 0, bx: w2, by: 0, cx: w2, cy: h2 }, OPAQUE_WHITE);
    }
    Some(b)
}

fn exec_curve_ring(cx: i64, hd: i64, w2: i64, s: i64) -> (r: Shape)
    requires
        0 <= cx <= 8000,
        1 <= hd <= 4000,
        2 <= w2 <= 8000,
        0 <= s <= 400,
    ensures
        r == spec_curve_ring(cx as int, hd as int, w2 as int, s as int),
        crate::bitmap::shape_bounded(r),
{
    let ia = if w2 - 2 * s >= 0 {
        w2 - 2 * s
    } else {
        0
    };
    let ib = if hd - 2 * s >= 0 {
        hd - 2 * s
    } else {
        0
    };
    Shape::Ring { cx, cy: hd, outer_a: w2, outer_b: hd, inner_a: ia, inner_b: ib, qx: 0, qy: 0 }
}

// ===================================================================
// Dispatch and laws
// ===================================================================

/// The code points the programmatic renderer implements: all four ranges
/// except the unimplemented box-drawing glyphs.
pub open spec fn spec_programmatic_implemented(cp: u32) -> bool {
    &&& spec_is_programmatic(cp)
    &&& (0x2500 <= cp <= 0x257F ==> spec_box_implemented(cp))
}

/// Which pixels of a programmatic glyph are set (doubled coordinates).
pub open spec fn spec_programmatic_covers(cp: u32, w: u32, h: u32, px: int, py: int) -> bool {
    if 0x2500 <= cp <= 0x257F {
        spec_box_covers(cp, w, h, px, py)
    } else if 0x2580 <= cp <= 0x259F {
        spec_block_covers(cp, w, h, px, py)
    } else if 0x2800 <= cp <= 0x28FF {
        spec_braille_covers(cp, w, h, px, py)
    } else {
        spec_powerline_covers(cp, w, h, px, py)
    }
}

/// The full contract of `render_programmatic_glyph`: `None` exactly for
/// characters outside the programmatic set, unimplemented box-drawing code
/// points and degenerate dimensions; otherwise a bitmap whose every pixel
/// is determined by `spec_programmatic_covers`.
pub open spec fn spec_render_post(c: char, width: u32, height: u32, r: Option<Bitmap>) -> bool {
    &&& (r is Some <==> (spec_programmatic_implemented(c as u32) && spec_dims_ok(width, height)))
    &&& (r matches Some(b) ==> {
        &&& b.wf()
        &&& b.width == width
        &&& b.height == height
        &&& forall|x: int, y: int|
            0 <= x < width && 0 <= y < height ==> b.spec_pixel(x, y) == (
            if spec_programmatic_covers(c as u32, width, height, 2 * x + 1, 2 * y + 1) {
                OPAQUE_WHITE
            } else {
                0u32
            })
    })
}

/// Renders a programmatic glyph at exact pixel dimensions, or `None` when
/// the character is not a programmatic glyph this renderer implements or
/// the dimensions are degenerate.
pub fn render_programmatic_glyph(c: char, width: u32, height: u32) -> (r: Option<Bitmap>)
    ensures
        spec_render_post(c, width, height, r),
{
    let cp = c as u32;
    if 0x2500 <= cp && cp <= 0x257F {
        render_box(c, width, height)
    } else if 0x2580 <= cp && cp <= 0x259F {
        render_block(c, width, height)
    } else if 0x2800 <= cp && cp <= 0x28FF {
        render_braille(c, width, height)
    } else if 0xE0B0 <= cp && cp <= 0xE0BF {
        render_powerline(c, width, height)
    } else {
        None
    }
}

/// The code point of the `i`-th programmatic glyph, ranges in order.
pub open spec fn spec_glyph_code(i: int) -> int {
    if i < 128 {
        0x2500 + i
    } else if i < 160 {
        0x2580 + (i - 128)
    } else if i < 416 {
        0x2800 + (i - 160)
    } else {
        0xE0B0 + (i - 416)
    }
}

/// All 432 programmatic code points, for eager pre-population of the atlas:
/// 128 box-drawing, 32 block-element, 256 braille and 16 powerline glyphs.
pub fn all_programmatic_glyphs() -> (r: Vec<char>)
    ensures
        r@.len() == 432,
        forall|i: int| 0 <= i < 432 ==> #[trigger] r@[i] as u32 == spec_glyph_code(i),
{
    let mut r: Vec<char> = Vec::new();
    let mut cp: u32 = 0x2500;
    while cp <= 0x259F
        invariant
            0x2500 <= cp <= 0x25A0,
            r@.len() == cp - 0x2500,
            forall|i: int| 0 <= i < r@.len() ==> #[trigger] r@[i] as u32 == spec_glyph_code(i),
        decreases 0x25A0 - cp,
    {
        r.push(crate::unicode::char_from_code(cp));
        cp = cp + 1;
    }
    let mut cp: u32 = 0x2800;
    while cp <= 0x28FF
        invariant
            0x2800 <= cp <= 0x2900,
            r@.len() == 160 + cp - 0x2800,
            forall|i: int| 0 <= i < r@.len() ==> #[trigger] r@[i] as u32 == spec_glyph_code(i),
        decreases 0x2900 - cp,
    {
        r.push(crate::unicode::char_from_code(cp));
        cp = cp + 1;
    }
    let mut cp: u32 = 0xE0B0;
    while cp <= 0xE0BF
        invariant
            0xE0B0 <= cp <= 0xE0C0,
            r@.len() == 416 + cp - 0xE0B0,
            forall|i: int| 0 <= i < r@.len() ==> #[trigger] r@[i] as u32 == spec_glyph_code(i),
        decreases 0xE0C0 - cp,
    {
        r.push(crate::unicode::char_from_code(cp));
        cp = cp + 1;
    }
    r
}

/// The programmatic code points are listed in strictly increasing order.
pub proof fn lemma_glyph_code_increasing(i1: int, i2: int)
    requires
        0 <= i1 < i2 < 432,
    ensures
        spec_glyph_code(i1) < spec_glyph_code(i2),
{
}

/// Determinism: the renderer's result is a pure function of the character
/// and the requested dimensions, so two results for equal inputs hold
/// byte-identical pixel buffers.
pub proof fn lemma_programmatic_deterministic(
    c: char,
    width: u32,
    height: u32,
    r1: Option<Bitmap>,
    r2: Option<Bitmap>,
)
    requires
        spec_render_post(c, width, height, r1),
        spec_render_post(c, width, height, r2),
    ensures
        r1 is Some <==> r2 is Some,
        r1 is Some && r2 is Some ==> {
            &&& r1->Some_0.width == r2->Some_0.width
            &&& r1->Some_0.height == r2->Some_0.height
            &&& r1->Some_0.pixels@ == r2->Some_0.pixels@
        },
{
    if r1 is Some && r2 is Some {
        let b1 = r1->Some_0;
        let b2 = r2->Some_0;
        assert forall|i: int| 0 <= i < b1.pixels@.len() implies b1.pixels@[i] == b2.pixels@[i] by {
            let w = width as int;
            let x = i % w;
            let y = i / w;
            vstd::arithmetic::div_mod::lemma_fundamental_div_mod(i, w);
            vstd::arithmetic::div_mod::lemma_mod_division_less_than_divisor(i, w);
            vstd::arithmetic::div_mod::lemma_div_pos_is_pos(i, w);
            assert(y < height) by (nonlinear_arith)
                requires
                    i == w * y + x,
                    0 <= x < w,
                    i < w * (height as int),
                    0 <= y,
            ;
            assert(b1.spec_pixel(x, y) == b2.spec_pixel(x, y));
        }
        assert(b1.pixels@ =~= b2.pixels@);
    }
}

/// Braille decode, empty side: U+2800 has every dot bit clear, so its
/// bitmap is fully transparent.
pub proof fn lemma_braille_blank(c: char, width: u32, height: u32, r: Option<Bitmap>)
    requires
        spec_render_post(c, width, height, r),
        c as u32 == 0x2800,
    ensures
        r matches Some(b) ==> forall|i: int|
            0 <= i < b.pixels@.len() ==> crate::bitmap::spec_alpha(#[trigger] b.pixels@[i]) == 0,
{
    if r is Some {
        let b = r->Some_0;
        assert(0u32 & 0x01u32 == 0 && 0u32 & 0x02u32 == 0 && 0u32 & 0x04u32 == 0 && 0u32 & 0x08u32
            == 0 && 0u32 & 0x10u32 == 0 && 0u32 & 0x20u32 == 0 && 0u32 & 0x40u32 == 0 && 0u32
            & 0x80u32 == 0) by (bit_vector);
        assert forall|i: int| 0 <= i < b.pixels@.len() implies crate::bitmap::spec_alpha(
            #[trigger] b.pixels@[i],
        ) == 0 by {
            let w = width as int;
            let x = i % w;
            let y = i / w;
            vstd::arithmetic::div_mod::lemma_fundamental_div_mod(i, w);
            vstd::arithmetic::div_mod::lemma_mod_division_less_than_divisor(i, w);
            vstd::arithmetic::div_mod::lemma_div_pos_is_pos(i, w);
            assert(y < height) by (nonlinear_arith)
                requires
                    i == w * y + x,
                    0 <= x < w,
                    i < w * (height as int),
                    0 <= y,
            ;
            assert(!spec_braille_covers(0x2800, width, height, 2 * x + 1, 2 * y + 1));
            assert(b.spec_pixel(x, y) == 0u32);
        }
    }
}

/// Along one axis of the dot grid: the dot center `c` of cell `k` (of `m`
/// cells over a length of `n` pixels) has a pixel `p` whose doubled center
/// is within one unit of `c`, and that pixel lies inside cell `k`.
proof fn lemma_dot_axis(n: int, k: int, m: int)
    requires
        m == 2 || m == 4,
        n >= m,
        0 <= k < m,
    ensures
        ({
            let c = ((2 * k + 1) * n) / m;
            let p = (c - 1) / 2;
            &&& 0 <= p
            &&& 1 <= c <= 2 * n
            &&& (k * n) / m <= p < ((k + 1) * n) / m
            &&& (2 * p + 1 - c) * (2 * p + 1 - c) <= 1
        }),
{
    let kn = k * n;
    let a = (2 * k + 1) * n;
    assert(a == 2 * kn + n && kn >= 0 && (k <= 1 ==> kn <= n) && kn <= 3 * n)
        by (nonlinear_arith)
        requires
            kn == k * n,
            a == (2 * k + 1) * n,
            0 <= k < m,
            m <= 4,
            n >= m,
    ;
    let c = a / m;
    let p = (c - 1) / 2;
    vstd::arithmetic::div_mod::lemma_fundamental_div_mod(a, m);
    vstd::arithmetic::div_mod::lemma_mod_division_less_than_divisor(a, m);
    vstd::arithmetic::div_mod::lemma_fundamental_div_mod(c - 1, 2);
    vstd::arithmetic::div_mod::lemma_mod_division_less_than_divisor(c - 1, 2);
    vstd::arithmetic::div_mod::lemma_fundamental_div_mod(kn, m);
    vstd::arithmetic::div_mod::lemma_mod_division_less_than_divisor(kn, m);
    vstd::arithmetic::div_mod::lemma_fundamental_div_mod(kn + n, m);
    vstd::arithmetic::div_mod::lemma_mod_division_less_than_divisor(kn + n, m);
    let q0 = kn / m;
    let q1 = (kn + n) / m;
    if m == 2 {
        assert(0 <= p && 1 <= c <= 2 * n && q0 <= p < q1 && (2 * p + 1 - c) * (2 * p + 1 - c) <= 1)
            by (nonlinear_arith)
            requires
                a == 2 * kn + n,
                n >= 2,
                0 <= kn <= n,
                a == 2 * c + a % 2,
                0 <= a % 2 < 2,
                c - 1 == 2 * p + (c - 1) % 2,
                0 <= (c - 1) % 2 < 2,
                kn == 2 * q0 + kn % 2,
                0 <= kn % 2 < 2,
                kn + n == 2 * q1 + (kn + n) % 2,
                0 <= (kn + n) % 2 < 2,
        ;
    } else {
        assert(0 <= p && 1 <= c <= 2 * n && q0 <= p < q1 && (2 * p + 1 - c) * (2 * p + 1 - c) <= 1)
            by (nonlinear_arith)
            requires
                a == 2 * kn + n,
                n >= 4,
                0 <= kn <= 3 * n,
                a == 4 * c + a % 4,
                0 <= a % 4 < 4,
                c - 1 == 2 * p + (c - 1) % 2,
                0 <= (c - 1) % 2 < 2,
                kn == 4 * q0 + kn % 4,
                0 <= kn % 4 < 4,
                kn + n == 4 * q1 + (kn + n) % 4,
                0 <= (kn + n) % 4 < 4,
        ;
    }
    assert((k * n) / m == q0);
    assert(((k + 1) * n) / m == q1) by {
        assert((k + 1) * n == kn + n) by (nonlinear_arith)
            requires
                kn == k * n,
        ;
    }
}

/// Whether some pixel of dot-grid cell (`col`, `row`) is fully opaque.
pub open spec fn spec_dot_cell_opaque(b: Bitmap, width: u32, height: u32, col: int, row: int) -> bool {
    exists|x: int, y: int|
        {
            &&& (col * width) / 2 <= x < ((col + 1) * width) / 2
            &&& (row * height) / 4 <= y < ((row + 1) * height) / 4
            &&& crate::bitmap::spec_alpha(#[trigger] b.spec_pixel(x, y)) == 0xFF
        }
}

/// Braille decode, full side: U+28FF has every dot bit set, so for every
/// cell of the 2 x 4 dot grid the bitmap holds at least one fully opaque
/// pixel inside that cell. Needs at least one pixel column per grid column
/// and one pixel row per grid row.
pub proof fn lemma_braille_full(c: char, width: u32, height: u32, r: Option<Bitmap>)
    requires
        spec_render_post(c, width, height, r),
        c as u32 == 0x28FF,
        width >= 2,
        height >= 4,
    ensures
        r matches Some(b) ==> forall|col: int, row: int|
            0 <= col < 2 && 0 <= row < 4 ==> #[trigger] spec_dot_cell_opaque(
                b,
                width,
                height,
                col,
                row,
            ),
{
    if r is Some {
        let b = r->Some_0;
        assert(0xFFu32 & 0x01u32 != 0 && 0xFFu32 & 0x02u32 != 0 && 0xFFu32 & 0x04u32 != 0
            && 0xFFu32 & 0x08u32 != 0 && 0xFFu32 & 0x10u32 != 0 && 0xFFu32 & 0x20u32 != 0
            && 0xFFu32 & 0x40u32 != 0 && 0xFFu32 & 0x80u32 != 0) by (bit_vector);
        assert forall|col: int, row: int| 0 <= col < 2 && 0 <= row < 4 implies #[trigger] spec_dot_cell_opaque(
            b,
            width,
            height,
            col,
            row,
        ) by {
            lemma_dot_axis(width as int, col, 2);
            lemma_dot_axis(height as int, row, 4);
            let cx = ((2 * col + 1) * width) / 2;
            let cy = ((2 * row + 1) * height) / 4;
            let x = (cx - 1) / 2;
            let y = (cy - 1) / 2;
            let dot = spec_braille_dot(width, height, col, row);
            let s = spec_stroke_width(height) as int;
            let r2 = if 6 * s / 5 >= 2 {
                6 * s / 5
            } else {
                2
            };
            assert(0 <= s <= 400 && 2 <= r2 <= 480);
            assert(dot == (Shape::Ellipse {
                cx: cx as i64,
                cy: cy as i64,
                a: r2 as i64,
                b: r2 as i64,
            }));
            assert(spec_covers(dot, 2 * x + 1, 2 * y + 1)) by {
                let dx = 2 * x + 1 - cx;
                let dy = 2 * y + 1 - cy;
                assert(dx * r2 * (dx * r2) + dy * r2 * (dy * r2) <= r2 * r2 * (r2 * r2))
                    by (nonlinear_arith)
                    requires
                        dx * dx <= 1,
                        dy * dy <= 1,
                        2 <= r2 <= 480,
                ;
                assert(spec_in_ellipse(cx, cy, r2, r2, 2 * x + 1, 2 * y + 1));
            }
            assert(spec_braille_covers(0x28FF, width, height, 2 * x + 1, 2 * y + 1));
            assert(x < width && y < height) by {
                assert(((col + 1) * width) / 2 <= width && ((row + 1) * height) / 4 <= height)
                    by (nonlinear_arith)
                    requires
                        0 <= col < 2,
                        0 <= row < 4,
                        width >= 2,
                        height >= 4,
                ;
            }
            assert(b.spec_pixel(x, y) == OPAQUE_WHITE);
            assert(crate::bitmap::spec_alpha(OPAQUE_WHITE) == 0xFF);
        }
    }
}

} // verus!

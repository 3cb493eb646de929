//! The terminal backend: the cell grid, dirty tracking, and the per-frame
//! translation of cells into background and foreground quads plus pending
//! atlas work (the frame builder).
//!
//! Text shaping and font fallback are external collaborators: the caller
//! shapes each row's text and hands the shaped glyph runs (glyph
//! identifier, source cluster, offsets) together with the resolved font
//! and synthetic-style decision to `flush`.

use vstd::prelude::*;

use crate::atlas::Atlas;
use crate::atlas::CacheRect;
use crate::atlas::Key;
use crate::color::Color;
use crate::color::Rgb;
use crate::color::spec_resolve_color;
use crate::color::spec_pack_vertex_color;
use crate::color::resolve_color;
use crate::color::pack_vertex_color;
use crate::programmatic::spec_is_programmatic;
use crate::unicode::spec_char_cell_width;
use crate::unicode::spec_is_control;
use crate::unicode::wcwidth;

verus! {

/// Style-modifier bits of a cell, one flag per bit.
pub const MOD_BOLD: u16 = 0x0001;

pub const MOD_DIM: u16 = 0x0002;

pub const MOD_ITALIC: u16 = 0x0004;

pub const MOD_UNDERLINED: u16 = 0x0008;

pub const MOD_SLOW_BLINK: u16 = 0x0010;

pub const MOD_RAPID_BLINK: u16 = 0x0020;

pub const MOD_REVERSED: u16 = 0x0040;

pub const MOD_HIDDEN: u16 = 0x0080;

pub const MOD_CROSSED_OUT: u16 = 0x0100;

/// Largest supported grid edge, in cells.
pub const MAX_GRID_DIM: u16 = 4096;

/// Largest supported cell size, in pixels.
pub const MAX_FONT_DIM: u32 = 4000;

/// Width of the glyph cache texture, in pixels.
pub const CACHE_WIDTH: u32 = 1800;

/// Height of the glyph cache texture, in pixels.
pub const CACHE_HEIGHT: u32 = 1200;

/// One grid position: a grapheme (as its characters; empty for the
/// continuation columns of a wide character), colors, and style bits.
#[derive(Debug)]
pub struct Cell {
    pub symbol: Vec<char>,
    pub fg: Color,
    pub bg: Color,
    pub modifier: u16,
}

/// The mathematical value of a cell.
pub ghost struct CellView {
    pub symbol: Seq<char>,
    pub fg: Color,
    pub bg: Color,
    pub modifier: u16,
}

impl View for Cell {
    type V = CellView;

    open spec fn view(&self) -> CellView {
        CellView { symbol: self.symbol@, fg: self.fg, bg: self.bg, modifier: self.modifier }
    }
}

pub open spec fn spec_empty_cell() -> CellView {
    CellView { symbol: Seq::empty(), fg: Color::Reset, bg: Color::Reset, modifier: 0u16 }
}

impl Cell {
    /// The empty (null / continuation) cell.
    pub fn empty() -> (r: Cell)
        ensures
            r@ == spec_empty_cell(),
    {
        Cell { symbol: Vec::new(), fg: Color::Reset, bg: Color::Reset, modifier: 0 }
    }

    /// A cell holding one character with the given colors and style.
    pub fn of_char(c: char, fg: Color, bg: Color, modifier: u16) -> (r: Cell)
        ensures
            r@.symbol == seq![c],
            r@.fg == fg,
            r@.bg == bg,
            r@.modifier == modifier,
    {
        let mut symbol: Vec<char> = Vec::new();
        symbol.push(c);
        proof {
            assert(symbol@ =~= seq![c]);
        }
        Cell { symbol, fg, bg, modifier }
    }
}

/// Controls the area the grid is rendered to, relative to the surface.
#[derive(Clone, Copy, PartialEq, Eq, Structural, Debug)]
pub enum Viewport {
    /// Render to the entire surface.
    Full,
    /// Render to a surface reduced by the given pixel insets.
    Shrink { width: u32, height: u32 },
}

/// Surface dimensions in pixels.
#[derive(Clone, Copy, PartialEq, Eq, Structural, Debug)]
pub struct Dimensions {
    pub width: u32,
    pub height: u32,
}

/// How many grid columns a cell's content occupies: the summed display
/// width of its characters (clamped), at least one.
pub open spec fn spec_symbol_width_sum(s: Seq<char>) -> int
    decreases s.len(),
{
    if s.len() == 0 {
        0
    } else {
        let prev = spec_symbol_width_sum(s.drop_last());
        let lc = s.last();
        let wch = if spec_is_control(lc) {
            0
        } else {
            wcwidth(lc) as int
        };
        if prev < 0x10000 {
            prev + wch
        } else {
            prev
        }
    }
}

pub open spec fn spec_symbol_cell_width(s: Seq<char>) -> int {
    if spec_symbol_width_sum(s) < 1 {
        1
    } else {
        spec_symbol_width_sum(s)
    }
}

/// Columns occupied by a cell's symbol: at least one.
pub fn symbol_cell_width(s: &Vec<char>) -> (r: usize)
    ensures
        r == spec_symbol_cell_width(s@),
        1 <= r <= 0x10003,
{
    let mut total: usize = 0;
    let mut i: usize = 0;
    while i < s.len()
        invariant
            i <= s.len(),
            total == spec_symbol_width_sum(s@.take(i as int)),
            total <= 0x10000 + 3,
        decreases s.len() - i,
    {
        let c = s[i];
        let wch = crate::unicode::char_cell_width_or_zero(c);
        if total < 0x10000 {
            total = total + wch;
        }
        proof {
            assert(s@.take(i + 1 as int).drop_last() =~= s@.take(i as int));
            assert(s@.take(i + 1 as int).last() == s@[i as int]);
        }
        i = i + 1;
    }
    proof {
        assert(s@.take(s@.len() as int) =~= s@);
    }
    if total < 1 {
        1
    } else {
        total
    }
}

/// The terminal backend: grid state, glyph cache, and frame building.
#[derive(Debug)]
pub struct TerminalBackend {
    pub cols: u16,
    pub rows: u16,
    pub cells: Vec<Cell>,
    pub dirty_rows: Vec<bool>,
    pub cursor_x: u16,
    pub cursor_y: u16,
    pub viewport: Viewport,
    pub atlas: Atlas,
    pub reset_fg: Rgb,
    pub reset_bg: Rgb,
    pub font_width: u32,
    pub font_height: u32,
    pub fallback_font: u32,
}

impl TerminalBackend {
    pub open spec fn wf(self) -> bool {
        &&& 1 <= self.cols <= MAX_GRID_DIM
        &&& 1 <= self.rows <= MAX_GRID_DIM
        &&& self.cells@.len() == self.rows * self.cols
        &&& self.dirty_rows@.len() == self.rows
        &&& self.cursor_x < self.cols
        &&& self.cursor_y < self.rows
        &&& 1 <= self.font_width <= MAX_FONT_DIM
        &&& 1 <= self.font_height <= MAX_FONT_DIM
        &&& self.atlas.wf()
    }

    /// The grid as a sequence of cell values, row-major.
    pub open spec fn grid(self) -> Seq<CellView> {
        self.cells@.map_values(|c: Cell| c@)
    }

    /// The cells of row `r`.
    pub open spec fn row_cells(self, r: int) -> Seq<CellView> {
        self.grid().subrange(r * self.cols, (r + 1) * self.cols)
    }

    /// The terminal dimensions in characters, if the backend is usable.
    pub fn dimensions(&self) -> (r: Option<(u16, u16)>)
        ensures
            r is Some <==> (self.cols >= 1 && self.rows >= 1),
            r matches Some(d) ==> d.0 == self.cols && d.1 == self.rows,
    {
        if self.cols == 0 || self.rows == 0 {
            return None;
        }
        Some((self.cols, self.rows))
    }

    /// The drawable area in cells, after applying the viewport insets to
    /// the pixel surface (insets larger than the surface leave nothing).
    pub fn size(&self) -> (r: (u16, u16))
        requires
            self.wf(),
        ensures
            r == self.spec_size(),
    {
        let (inset_w, inset_h) = match self.viewport {
            Viewport::Full => (0u32, 0u32),
            Viewport::Shrink { width, height } => (width, height),
        };
        proof {
            crate::bitmap::lemma_mul_abs_bound(self.cols as int, self.font_width as int, 4096, 4000);
            crate::bitmap::lemma_mul_abs_bound(
                self.rows as int,
                self.font_height as int,
                4096,
                4000,
            );
            assert(self.cols as int * self.font_width as int >= 0 && self.rows as int
                * self.font_height as int >= 0) by (nonlinear_arith)
                requires
                    self.cols >= 1,
                    self.rows >= 1,
                    self.font_width >= 1,
                    self.font_height >= 1,
            ;
        }
        let pixel_w = self.cols as u32 * self.font_width;
        let pixel_h = self.rows as u32 * self.font_height;
        let w = if inset_w > pixel_w {
            0
        } else {
            pixel_w - inset_w
        };
        let h = if inset_h > pixel_h {
            0
        } else {
            pixel_h - inset_h
        };
        proof {
            vstd::arithmetic::div_mod::lemma_div_pos_is_pos(w as int, self.font_width as int);
            vstd::arithmetic::div_mod::lemma_div_is_ordered(
                w as int,
                self.cols as int * self.font_width as int,
                self.font_width as int,
            );
            vstd::arithmetic::div_mod::lemma_div_pos_is_pos(h as int, self.font_height as int);
            vstd::arithmetic::div_mod::lemma_div_is_ordered(
                h as int,
                self.rows as int * self.font_height as int,
                self.font_height as int,
            );
            assert((self.cols as int * self.font_width as int) / (self.font_width as int)
                == self.cols as int && (self.rows as int * self.font_height as int) / (
            self.font_height as int) == self.rows as int) by (nonlinear_arith)
                requires
                    self.font_width >= 1,
                    self.font_height >= 1,
                    self.cols >= 0,
                    self.rows >= 0,
            ;
        }
        ((w / self.font_width) as u16, (h / self.font_height) as u16)
    }

    /// What `size` returns: the pixel surface minus the viewport insets,
    /// divided back into whole cells.
    pub open spec fn spec_size(self) -> (u16, u16) {
        let inset_w = match self.viewport {
            Viewport::Full => 0,
            Viewport::Shrink { width, height } => width as int,
        };
        let inset_h = match self.viewport {
            Viewport::Full => 0,
            Viewport::Shrink { width, height } => height as int,
        };
        let pixel_w = self.cols as int * self.font_width as int;
        let pixel_h = self.rows as int * self.font_height as int;
        let w = if inset_w > pixel_w {
            0
        } else {
            pixel_w - inset_w
        };
        let h = if inset_h > pixel_h {
            0
        } else {
            pixel_h - inset_h
        };
        ((w / (self.font_width as int)) as u16, (h / (self.font_height as int)) as u16)
    }

    /// The drawable area: cells and pixels.
    pub fn window_size(&self) -> (r: ((u16, u16), Dimensions))
        requires
            self.wf(),
        ensures
            r.0 == self.spec_size(),
            r.1.width == r.0.0 as int * self.font_width as int,
            r.1.height == r.0.1 as int * self.font_height as int,
    {
        let cells = self.size();
        proof {
            crate::bitmap::lemma_mul_abs_bound(cells.0 as int, self.font_width as int, 65535, 4000);
            crate::bitmap::lemma_mul_abs_bound(cells.1 as int, self.font_height as int, 65535, 4000);
            assert(cells.0 as int * self.font_width as int >= 0 && cells.1 as int
                * self.font_height as int >= 0) by (nonlinear_arith)
                requires
                    self.font_width >= 1,
                    self.font_height >= 1,
            ;
        }
        (
            cells,
            Dimensions {
                width: cells.0 as u32 * self.font_width,
                height: cells.1 as u32 * self.font_height,
            },
        )
    }

    pub fn get_cursor_position(&self) -> (r: (u16, u16))
        ensures
            r.0 == self.cursor_x && r.1 == self.cursor_y,
    {
        (self.cursor_x, self.cursor_y)
    }

    /// Moves the cursor, clamped into the grid.
    pub fn set_cursor_position(&mut self, x: u16, y: u16)
        requires
            old(self).wf(),
        ensures
            final(self).wf(),
            *final(self) == (TerminalBackend {
                cursor_x: final(self).cursor_x,
                cursor_y: final(self).cursor_y,
                ..*old(self)
            }),
            final(self).cursor_x == if x < old(self).cols {
                x
            } else {
                (old(self).cols - 1) as u16
            },
            final(self).cursor_y == if y < old(self).rows {
                y
            } else {
                (old(self).rows - 1) as u16
            },
    {
        self.cursor_x = if x < self.cols {
            x
        } else {
            self.cols - 1
        };
        self.cursor_y = if y < self.rows {
            y
        } else {
            self.rows - 1
        };
    }

    /// Resets every cell to empty, marks all rows dirty and homes the
    /// cursor.
    pub fn clear(&mut self)
        requires
            old(self).wf(),
        ensures
            final(self).wf(),
            final(self).cols == old(self).cols,
            final(self).rows == old(self).rows,
            final(self).font_width == old(self).font_width,
            final(self).font_height == old(self).font_height,
            final(self).atlas == old(self).atlas,
            forall|i: int| 0 <= i < final(self).grid().len() ==> final(self).grid()[i] == spec_empty_cell(),
            forall|r: int| 0 <= r < final(self).rows ==> final(self).dirty_rows@[r] == true,
            final(self).cursor_x == 0 && final(self).cursor_y == 0,
    {
        let n = self.cells.len();
        let mut i: usize = 0;
        while i < n
            invariant
                i <= n,
                self.cells@.len() == n,
                forall|j: int| 0 <= j < i ==> (#[trigger] self.cells@[j])@ == spec_empty_cell(),
                *self == (TerminalBackend { cells: self.cells, ..*old(self) }),
            decreases n - i,
        {
            self.cells.set(i, Cell::empty());
            i = i + 1;
        }
        let ghost mid = *self;
        let m = self.dirty_rows.len();
        let mut r: usize = 0;
        while r < m
            invariant
                r <= m,
                self.dirty_rows@.len() == m,
                forall|j: int| 0 <= j < r ==> self.dirty_rows@[j] == true,
                *self == (TerminalBackend { dirty_rows: self.dirty_rows, ..mid }),
                forall|j: int| 0 <= j < mid.cells@.len() ==> (#[trigger] mid.cells@[j])@ == spec_empty_cell(),
            decreases m - r,
        {
            self.dirty_rows.set(r, true);
            r = r + 1;
        }
        self.cursor_x = 0;
        self.cursor_y = 0;
    }

    /// Installs new font metrics: the whole glyph cache becomes stale and
    /// is evicted, and every row is marked dirty.
    pub fn update_fonts(&mut self, font_width: u32, font_height: u32, fallback_font: u32)
        requires
            old(self).wf(),
            1 <= font_width <= MAX_FONT_DIM,
            1 <= font_height <= MAX_FONT_DIM,
        ensures
            final(self).wf(),
            final(self).cols == old(self).cols,
            final(self).rows == old(self).rows,
            final(self).grid() == old(self).grid(),
            final(self).font_width == font_width,
            final(self).font_height == font_height,
            final(self).fallback_font == fallback_font,
            final(self).atlas.entries@.len() == 0,
            forall|r: int| 0 <= r < final(self).rows ==> final(self).dirty_rows@[r] == true,
    {
        self.font_width = font_width;
        self.font_height = font_height;
        self.fallback_font = fallback_font;
        self.atlas.clear();
        let ghost mid = *self;
        let m = self.dirty_rows.len();
        let mut r: usize = 0;
        while r < m
            invariant
                r <= m,
                self.dirty_rows@.len() == m,
                forall|j: int| 0 <= j < r ==> self.dirty_rows@[j] == true,
                *self == (TerminalBackend { dirty_rows: self.dirty_rows, ..mid }),
            decreases m - r,
        {
            self.dirty_rows.set(r, true);
            r = r + 1;
        }
    }
}

/// One cell write: the target column and row, and the new cell.
#[derive(Debug)]
pub struct CellUpdate {
    pub x: u16,
    pub y: u16,
    pub cell: Cell,
}

/// The mathematical value of a cell write.
pub ghost struct UpdateView {
    pub x: u16,
    pub y: u16,
    pub cell: CellView,
}

impl View for CellUpdate {
    type V = UpdateView;

    open spec fn view(&self) -> UpdateView {
        UpdateView { x: self.x, y: self.y, cell: self.cell@ }
    }
}

/// One cell write applied to the grid: the cell lands at its position, and
/// the following `width - 1` cells (clamped to the grid) become empty
/// continuation cells, so a wide character reserves its extra columns.
pub open spec fn spec_apply_update(grid: Seq<CellView>, cols: int, u: UpdateView) -> Seq<
    CellView,
> {
    let idx = u.y * cols + u.x;
    let w = spec_symbol_cell_width(u.cell.symbol);
    let end = if idx + w <= grid.len() {
        idx + w
    } else {
        grid.len() as int
    };
    Seq::new(
        grid.len(),
        |i: int|
            if i == idx {
                u.cell
            } else if idx < i < end {
                spec_empty_cell()
            } else {
                grid[i]
            },
    )
}

/// A batch of cell writes applied in order.
pub open spec fn spec_apply_updates(grid: Seq<CellView>, cols: int, us: Seq<UpdateView>) -> Seq<
    CellView,
>
    decreases us.len(),
{
    if us.len() == 0 {
        grid
    } else {
        spec_apply_update(spec_apply_updates(grid, cols, us.drop_last()), cols, us.last())
    }
}

/// The dirty flags after a batch of writes, over update views: a row is
/// dirty exactly when it was dirty before or some write touched it.
pub open spec fn spec_dirty_from_views(
    dirty: Seq<bool>,
    orig_dirty: Seq<bool>,
    uviews: Seq<UpdateView>,
    rows: int,
) -> bool {
    forall|r: int|
        0 <= r < rows ==> dirty[r] == (orig_dirty[r] || exists|i: int|
            0 <= i < uviews.len() && (#[trigger] uviews[i]).y == r)
}

/// The same statement over the updates themselves.
pub open spec fn spec_dirty_from_updates(
    dirty: Seq<bool>,
    orig_dirty: Seq<bool>,
    updates: Seq<CellUpdate>,
    rows: int,
) -> bool {
    forall|r: int|
        0 <= r < rows ==> dirty[r] == (orig_dirty[r] || exists|i: int|
            0 <= i < updates.len() && (#[trigger] updates[i]).y == r)
}

/// Wide-character reservation: one write puts its cell in place and
/// leaves every following column the character spans (up to the end of
/// the grid) an empty continuation cell, so no independent content can
/// sit under a wide character.
pub proof fn lemma_wide_reservation(grid: Seq<CellView>, cols: int, u: UpdateView)
    ensures
        ({
            let idx = u.y * cols + u.x;
            let width = spec_symbol_cell_width(u.cell.symbol);
            forall|d: int|
                1 <= d < width && 0 <= idx && idx + d < grid.len()
                    ==> #[trigger] spec_apply_update(grid, cols, u)[idx + d] == spec_empty_cell()
        }),
{
}

/// One write marks its row dirty and preserves the bookkeeping.
proof fn lemma_dirty_rows_step(
    dirty_pre: Seq<bool>,
    dirty_post: Seq<bool>,
    orig_dirty: Seq<bool>,
    prefix: Seq<UpdateView>,
    u: UpdateView,
    rows: int,
)
    requires
        spec_dirty_from_views(dirty_pre, orig_dirty, prefix, rows),
        dirty_post == dirty_pre.update(u.y as int, true),
        0 <= u.y < rows,
        dirty_pre.len() == rows,
    ensures
        spec_dirty_from_views(dirty_post, orig_dirty, prefix.push(u), rows),
{
    let ext = prefix.push(u);
    assert forall|r: int| 0 <= r < rows implies dirty_post[r] == (orig_dirty[r] || exists|i: int|
        0 <= i < ext.len() && (#[trigger] ext[i]).y == r) by {
        if r == u.y as int {
            assert(ext[prefix.len() as int] == u);
            assert((#[trigger] ext[prefix.len() as int]).y == r);
            assert(dirty_post[r] == true);
        } else {
            assert(dirty_post[r] == dirty_pre[r]);
            assert(dirty_pre[r] == (orig_dirty[r] || exists|i: int|
                0 <= i < prefix.len() && (#[trigger] prefix[i]).y == r));
            if exists|i: int| 0 <= i < prefix.len() && (#[trigger] prefix[i]).y == r {
                let i0 = choose|i: int| 0 <= i < prefix.len() && (#[trigger] prefix[i]).y == r;
                assert(ext[i0] == prefix[i0]);
                assert((#[trigger] ext[i0]).y == r);
            }
            if exists|i: int| 0 <= i < ext.len() && (#[trigger] ext[i]).y == r {
                let i0 = choose|i: int| 0 <= i < ext.len() && (#[trigger] ext[i]).y == r;
                assert(ext[prefix.len() as int] == u);
                assert(i0 < prefix.len());
                assert(prefix[i0] == ext[i0]);
                assert((#[trigger] prefix[i0]).y == r);
            }
        }
    }
}

/// Carries the dirty-row bookkeeping from update views back to updates.
proof fn lemma_dirty_rows_bridge(
    dirty: Seq<bool>,
    orig_dirty: Seq<bool>,
    updates: Seq<CellUpdate>,
    uviews: Seq<UpdateView>,
    rows: int,
)
    requires
        uviews == updates.map_values(|u: CellUpdate| u@),
        spec_dirty_from_views(dirty, orig_dirty, uviews, rows),
    ensures
        spec_dirty_from_updates(dirty, orig_dirty, updates, rows),
{
    assert forall|r: int| 0 <= r < rows implies dirty[r] == (orig_dirty[r] || exists|i: int|
        0 <= i < updates.len() && (#[trigger] updates[i]).y == r) by {
        assert(dirty[r] == (orig_dirty[r] || exists|i: int|
            0 <= i < uviews.len() && (#[trigger] uviews[i]).y == r));
        if exists|i: int| 0 <= i < uviews.len() && (#[trigger] uviews[i]).y == r {
            let i0 = choose|i: int| 0 <= i < uviews.len() && (#[trigger] uviews[i]).y == r;
            assert(uviews[i0] == updates[i0]@);
            assert((#[trigger] updates[i0]).y == r);
        }
        if exists|i: int| 0 <= i < updates.len() && (#[trigger] updates[i]).y == r {
            let i0 = choose|i: int| 0 <= i < updates.len() && (#[trigger] updates[i]).y == r;
            assert(uviews[i0] == updates[i0]@);
            assert((#[trigger] uviews[i0]).y == r);
        }
    }
}

impl TerminalBackend {
    /// Writes a batch of cells into the grid, in order. Each write lands at
    /// its (column, row), reserves the continuation columns of a wide
    /// grapheme as empty cells, and marks its row dirty.
    #[verifier::rlimit(60)]
    pub fn draw(&mut self, updates: Vec<CellUpdate>)
        requires
            old(self).wf(),
            forall|i: int|
                0 <= i < updates@.len() ==> (#[trigger] updates@[i]).x < old(self).cols
                    && updates@[i].y < old(self).rows,
        ensures
            final(self).wf(),
            *final(self) == (TerminalBackend {
                cells: final(self).cells,
                dirty_rows: final(self).dirty_rows,
                ..*old(self)
            }),
            final(self).grid() == spec_apply_updates(
                old(self).grid(),
                old(self).cols as int,
                updates@.map_values(|u: CellUpdate| u@),
            ),
            spec_dirty_from_updates(
                final(self).dirty_rows@,
                old(self).dirty_rows@,
                updates@,
                old(self).rows as int,
            ),
    {
        let ghost orig = *old(self);
        let ghost orig_updates = updates@;
        let ghost uviews = updates@.map_values(|u: CellUpdate| u@);
        let mut updates = updates;
        let len0 = updates.len();
        let ghost n = orig_updates.len() as int;
        proof {
            assert(len0 == n);
        }
        let mut k: usize = 0;
        while updates.len() > 0
            invariant
                orig.wf(),
                uviews == orig_updates.map_values(|u: CellUpdate| u@),
                uviews.len() == n,
                orig_updates.len() == n,
                k + updates@.len() == n,
                n <= usize::MAX,
                uviews.len() == n,
                forall|i: int|
                    0 <= i < updates@.len() ==> #[trigger] updates@[i]@ == uviews[k + i],
                forall|i: int|
                    0 <= i < updates@.len() ==> (#[trigger] updates@[i]).x < orig.cols
                        && updates@[i].y < orig.rows,
                self.wf(),
                *self == (TerminalBackend { cells: self.cells, dirty_rows: self.dirty_rows, ..orig }),
                self.grid() == spec_apply_updates(orig.grid(), orig.cols as int, uviews.take(k as int)),
                spec_dirty_from_views(
                    self.dirty_rows@,
                    orig.dirty_rows@,
                    uviews.take(k as int),
                    orig.rows as int,
                ),
            decreases updates@.len(),
        {
            let ghost pre_iter = *self;
            let ghost prev_grid = self.grid();
            let u = updates.remove(0);
            proof {
                assert(u@ == uviews[k as int]);
            }
            let cols = self.cols as usize;
            proof {
                crate::bitmap::lemma_row_major_index(
                    orig.cols as int,
                    orig.rows as int,
                    u.x as int,
                    u.y as int,
                );
                crate::bitmap::lemma_mul_abs_bound(u.y as int, orig.cols as int, 4096, 4096);
                assert(u.y as int * orig.cols as int >= 0) by (nonlinear_arith)
                    requires
                        0 <= u.y,
                        0 <= orig.cols,
                ;
            }
            let idx = u.y as usize * cols + u.x as usize;
            let w = symbol_cell_width(&u.cell.symbol);
            let ghost ucell = u.cell@;
            let ghost uy = u.y;
            self.cells.set(idx, u.cell);
            proof {
                crate::bitmap::lemma_mul_abs_bound(orig.cols as int, orig.rows as int, 4096, 4096);
            }
            let end = if idx + w <= self.cells.len() {
                idx + w
            } else {
                self.cells.len()
            };
            let mut j: usize = idx + 1;
            while j < end
                invariant
                    idx < j <= if end > idx + 1 {
                        end as int
                    } else {
                        idx + 1
                    },
                    end <= self.cells@.len(),
                    self.cells@.len() == prev_grid.len(),
                    *self == (TerminalBackend { cells: self.cells, ..pre_iter }),
                    forall|i: int|
                        0 <= i < self.cells@.len() ==> (#[trigger] self.cells@[i])@ == (
                        if i == idx {
                            ucell
                        } else if idx < i < j {
                            spec_empty_cell()
                        } else {
                            prev_grid[i]
                        }),
                decreases end - j,
            {
                self.cells.set(j, Cell::empty());
                j = j + 1;
            }
            self.dirty_rows.set(u.y as usize, true);
            let ghost kprev = k as int;
            k = k + 1;
            proof {
                assert(self.grid() =~= spec_apply_update(prev_grid, orig.cols as int, uviews[kprev]));
                assert(uviews.take(kprev + 1).drop_last() =~= uviews.take(kprev));
                assert(uviews.take(kprev + 1).last() == uviews[kprev]);
                assert(uviews.take(kprev + 1) =~= uviews.take(kprev).push(uviews[kprev]));
                lemma_dirty_rows_step(
                    pre_iter.dirty_rows@,
                    self.dirty_rows@,
                    orig.dirty_rows@,
                    uviews.take(kprev),
                    uviews[kprev],
                    orig.rows as int,
                );
            }
        }
        proof {
            assert(uviews.take(n) =~= uviews);
            lemma_dirty_rows_bridge(
                self.dirty_rows@,
                orig.dirty_rows@,
                orig_updates,
                uviews,
                orig.rows as int,
            );
        }
    }
}

/// One shaped glyph, as the text-shaping collaborator reports it: the
/// font's glyph index, the cluster value (the character position within the
/// row's text that produced it), and its positioning.
#[derive(Clone, Copy, PartialEq, Eq, Structural, Debug)]
pub struct ShapedGlyph {
    pub glyph_id: u32,
    pub cluster: u32,
    pub x_offset: i32,
    pub y_offset: i32,
    pub x_advance: i32,
}

/// One row's shaped run: the font the fallback collaborator resolved for
/// the row, whether synthetic bold or italic must be applied, and the
/// shaped glyphs in order.
#[derive(Debug)]
pub struct RowRun {
    pub font: u32,
    pub fake_bold: bool,
    pub fake_italic: bool,
    pub glyphs: Vec<ShapedGlyph>,
}

/// The mathematical value of a row run.
pub ghost struct RowRunView {
    pub font: u32,
    pub fake_bold: bool,
    pub fake_italic: bool,
    pub glyphs: Seq<ShapedGlyph>,
}

impl View for RowRun {
    type V = RowRunView;

    open spec fn view(&self) -> RowRunView {
        RowRunView {
            font: self.font,
            fake_bold: self.fake_bold,
            fake_italic: self.fake_italic,
            glyphs: self.glyphs@,
        }
    }
}

/// One background quad: a cell-sized rectangle of the cell's background
/// color, in pixel coordinates.
#[derive(Clone, Copy, PartialEq, Eq, Structural, Debug)]
pub struct BgQuad {
    pub col: u16,
    pub row: u16,
    pub x: u32,
    pub y: u32,
    pub width: u32,
    pub height: u32,
    pub color: u32,
}

/// One foreground glyph quad: screen rectangle, the atlas rectangle it
/// samples, and the packed foreground color. A zero-size sample rectangle
/// marks a glyph the atlas could not hold, which renders blank.
#[derive(Clone, Copy, PartialEq, Eq, Structural, Debug)]
pub struct FgQuad {
    pub col: u16,
    pub row: u16,
    pub x: u32,
    pub y: u32,
    pub width: u32,
    pub height: u32,
    pub color: u32,
    pub key: Key,
    pub u: u32,
    pub v: u32,
    pub uv_w: u32,
    pub uv_h: u32,
}

/// Pixels waiting to be written into the atlas texture, consumed exactly
/// once by the compositor.
#[derive(Debug)]
pub struct PendingUpload {
    pub key: Key,
    pub rect: CacheRect,
    pub pixels: Vec<u32>,
    pub is_color: bool,
}

/// A font glyph that missed the cache: the caller rasterizes it (through
/// its font, applying the synthetic styles noted here) and turns it into a
/// `PendingUpload` for the slot rectangle.
#[derive(Clone, Copy, PartialEq, Eq, Structural, Debug)]
pub struct RasterRequest {
    pub key: Key,
    pub rect: CacheRect,
    pub glyph_id: u32,
    pub ch: char,
    pub width: u32,
    pub height: u32,
    pub fake_bold: bool,
    pub fake_italic: bool,
    pub x_offset: i32,
}

/// Everything one `flush` produces for the compositor. `evicted` reports
/// whether the atlas ran out of room during the frame and discarded its
/// cache (the generational eviction); in that rare frame, stale cached
/// slots may have been reassigned.
#[derive(Debug)]
pub struct FrameOutput {
    pub bg_quads: Vec<BgQuad>,
    pub fg_quads: Vec<FgQuad>,
    pub uploads: Vec<PendingUpload>,
    pub requests: Vec<RasterRequest>,
    pub evicted: bool,
}

/// What pre-populating the programmatic glyph set produces: the pending
/// uploads, and whether the atlas had to evict while packing them.
#[derive(Debug)]
pub struct PopulateOutput {
    pub uploads: Vec<PendingUpload>,
    pub evicted: bool,
}

/// The style bits that affect glyph shape.
pub open spec fn spec_style_bits(modifier: u16) -> u16 {
    modifier & 0x0005u16
}

/// Maps each character position of a row's text back to the cell column it
/// came from (a cell with an `n`-character symbol contributes `n`
/// positions).
pub open spec fn spec_rowmap(cells: Seq<CellView>) -> Seq<int>
    decreases cells.len(),
{
    if cells.len() == 0 {
        Seq::empty()
    } else {
        spec_rowmap(cells.drop_last()) + Seq::new(
            cells.last().symbol.len() as nat,
            |j: int| cells.len() - 1,
        )
    }
}

/// Every rowmap entry points at an in-range cell whose symbol is nonempty:
/// continuation and blank cells contribute no character positions, so no
/// glyph can map back to them.
pub proof fn lemma_rowmap_targets(cells: Seq<CellView>, k: int)
    requires
        0 <= k < spec_rowmap(cells).len(),
    ensures
        0 <= spec_rowmap(cells)[k] < cells.len(),
        cells[spec_rowmap(cells)[k]].symbol.len() > 0,
    decreases cells.len(),
{
    if cells.len() > 0 {
        let prev = spec_rowmap(cells.drop_last());
        if k < prev.len() {
            lemma_rowmap_targets(cells.drop_last(), k);
        }
    }
}

/// The foreground color of a cell: the `reversed` modifier swaps the roles
/// of foreground and background before resolution.
pub open spec fn spec_cell_fg(c: CellView, reset_fg: Rgb, reset_bg: Rgb) -> Rgb {
    if c.modifier & MOD_REVERSED != 0 {
        spec_resolve_color(c.bg, reset_bg)
    } else {
        spec_resolve_color(c.fg, reset_fg)
    }
}

/// The background color of a cell, with the same `reversed` swap.
pub open spec fn spec_cell_bg(c: CellView, reset_fg: Rgb, reset_bg: Rgb) -> Rgb {
    if c.modifier & MOD_REVERSED != 0 {
        spec_resolve_color(c.fg, reset_fg)
    } else {
        spec_resolve_color(c.bg, reset_bg)
    }
}

impl TerminalBackend {
    /// The cell column a shaped glyph lands in, or -1 when its cluster
    /// points past the row's text and the glyph is skipped.
    pub open spec fn spec_glyph_cell(self, r: int, g: ShapedGlyph) -> int {
        let rm = spec_rowmap(self.row_cells(r));
        if g.cluster < rm.len() {
            rm[g.cluster as int]
        } else {
            -1
        }
    }

    /// The cache key a shaped glyph resolves to: programmatic characters
    /// key on their code point under the fallback font identity, font
    /// glyphs on their shaped glyph index under the run's font.
    pub open spec fn spec_glyph_key(self, r: int, run: RowRunView, g: ShapedGlyph) -> Key {
        let ci = self.spec_glyph_cell(r, g);
        let cellv = self.row_cells(r)[ci];
        let ch = cellv.symbol[0];
        let style = spec_style_bits(cellv.modifier);
        if spec_is_programmatic(ch as u32) {
            Key { style, glyph: ch as u32, font: self.fallback_font }
        } else {
            Key { style, glyph: g.glyph_id, font: run.font }
        }
    }

    /// Whether every glyph of the frame already has a live atlas slot.
    pub open spec fn spec_all_hit(self, shaping: Seq<RowRunView>) -> bool {
        forall|r: int, j: int|
            0 <= r < self.rows && 0 <= j < shaping[r].glyphs.len() && self.spec_glyph_cell(
                r,
                shaping[r].glyphs[j],
            ) >= 0 ==> self.atlas.live(
                #[trigger] self.spec_glyph_key(r, shaping[r], shaping[r].glyphs[j]),
            )
    }

    /// Builds the cluster-to-column map for one row.
    fn build_rowmap(&self, y: u16) -> (rm: Vec<usize>)
        requires
            self.wf(),
            y < self.rows,
        ensures
            rm@.len() == spec_rowmap(self.row_cells(y as int)).len(),
            forall|k: int|
                0 <= k < rm@.len() ==> #[trigger] rm@[k] as int == spec_rowmap(
                    self.row_cells(y as int),
                )[k],
            forall|k: int| 0 <= k < rm@.len() ==> #[trigger] rm@[k] < self.cols,
    {
        let ghost rcs = self.row_cells(y as int);
        let cols = self.cols as usize;
        proof {
            crate::bitmap::lemma_mul_abs_bound(y as int, self.cols as int, 4096, 4096);
            crate::bitmap::lemma_mul_abs_bound(self.cols as int, self.rows as int, 4096, 4096);
            assert(0 <= y as int * (self.cols as int) && (y as int + 1) * (self.cols as int)
                == y as int * (self.cols as int) + self.cols as int && (y as int + 1) * (
            self.cols as int) <= (self.rows as int) * (self.cols as int)) by (nonlinear_arith)
                requires
                    0 <= y < self.rows,
                    1 <= self.cols,
            ;
        }
        let total = self.cells.len();
        let row_start = y as usize * cols;
        let mut rm: Vec<usize> = Vec::new();
        let mut x: usize = 0;
        while x < cols
            invariant
                x <= cols,
                cols == self.cols,
                row_start == y as int * cols,
                self.wf(),
                y < self.rows,
                rcs == self.row_cells(y as int),
                rcs.len() == cols,
                total == self.cells@.len(),
                row_start + cols <= total,
                (y as int + 1) * (self.cols as int) == row_start + cols,
                rm@.len() == spec_rowmap(rcs.take(x as int)).len(),
                forall|k: int|
                    0 <= k < rm@.len() ==> #[trigger] rm@[k] as int == spec_rowmap(
                        rcs.take(x as int),
                    )[k],
                forall|k: int| 0 <= k < rm@.len() ==> #[trigger] rm@[k] < cols,
            decreases cols - x,
        {
            proof {
                assert(rcs[x as int] == self.grid()[row_start + x]);
            }
            let symlen = self.cells[row_start + x].symbol.len();
            let ghost base = rm@.len() as int;
            let mut t: usize = 0;
            while t < symlen
                invariant
                    t <= symlen,
                    x < cols,
                    rm@.len() == base + t,
                    symlen == rcs[x as int].symbol.len(),
                    forall|k: int| 0 <= k < base ==> #[trigger] rm@[k] as int == spec_rowmap(rcs.take(x as int))[k],
                    forall|k: int| base <= k < rm@.len() ==> #[trigger] rm@[k] == x,
                    forall|k: int| 0 <= k < base ==> #[trigger] rm@[k] < cols,
                    base == spec_rowmap(rcs.take(x as int)).len(),
                decreases symlen - t,
            {
                rm.push(x);
                t = t + 1;
            }
            proof {
                assert(rcs.take(x + 1 as int).drop_last() =~= rcs.take(x as int));
                assert(rcs.take(x + 1 as int).last() == rcs[x as int]);
                assert(spec_rowmap(rcs.take(x + 1 as int)) == spec_rowmap(rcs.take(x as int))
                    + Seq::new(rcs[x as int].symbol.len() as nat, |j: int| x as int));
                assert forall|k: int| 0 <= k < rm@.len() implies #[trigger] rm@[k] as int
                    == spec_rowmap(rcs.take(x + 1 as int))[k] by {}
            }
            x = x + 1;
        }
        proof {
            assert(rcs.take(cols as int) =~= rcs);
        }
        rm
    }
}

/// A well-formed foreground quad for frame `t`: it sits on a cell that
/// holds content (never on the continuation column of a wide character),
/// covers that cell's pixel rectangle at the character's display width,
/// and carries the cell's resolved, packed foreground color.
pub open spec fn spec_fg_quad_ok(t: TerminalBackend, q: FgQuad) -> bool {
    let cell = t.grid()[q.row * t.cols + q.col];
    &&& q.row < t.rows
    &&& q.col < t.cols
    &&& cell.symbol.len() > 0
    &&& q.x == q.col * t.font_width
    &&& q.y == q.row * t.font_height
    &&& q.width == spec_char_cell_width(cell.symbol[0]) * t.font_width
    &&& q.height == t.font_height
    &&& q.color == spec_pack_vertex_color(spec_cell_fg(cell, t.reset_fg, t.reset_bg))
    &&& q.u + q.uv_w <= t.atlas.width
    &&& q.v + q.uv_h <= t.atlas.height
    &&& q.key.style == spec_style_bits(cell.modifier)
    &&& (spec_is_programmatic(cell.symbol[0] as u32) ==> q.key == (Key {
        style: spec_style_bits(cell.modifier),
        glyph: cell.symbol[0] as u32,
        font: t.fallback_font,
    }))
}

/// The background quad paired with a foreground quad: same cell, same
/// pixel rectangle, the cell's resolved background color.
pub open spec fn spec_bg_quad_matches(t: TerminalBackend, b: BgQuad, q: FgQuad) -> bool {
    let cell = t.grid()[q.row * t.cols + q.col];
    &&& b.col == q.col
    &&& b.row == q.row
    &&& b.x == q.x
    &&& b.y == q.y
    &&& b.width == q.width
    &&& b.height == q.height
    &&& b.color == spec_pack_vertex_color(spec_cell_bg(cell, t.reset_fg, t.reset_bg))
}

/// Every key the atlas holds mid-frame is accounted for: it was live
/// before the frame, or some already emitted quad obtained its slot.
pub open spec fn spec_flush_provenance(orig: TerminalBackend, a: Atlas, fg: Seq<FgQuad>) -> bool {
    forall|k2: Key|
        #[trigger] a.live(k2) ==> orig.atlas.live(k2) || exists|i: int|
            0 <= i < fg.len() && (#[trigger] fg[i]).key == k2 && fg[i].uv_w != 0
}

/// A quad that obtained a slot samples exactly that key's live rectangle.
pub open spec fn spec_flush_quads_slots(a: Atlas, fg: Seq<FgQuad>) -> bool {
    forall|i: int|
        0 <= i < fg.len() && (#[trigger] fg[i]).uv_w != 0 ==> {
            let q = fg[i];
            &&& a.live(q.key)
            &&& a.rect_of(q.key) == (CacheRect { x: q.u, y: q.v, width: q.uv_w, height: q.uv_h })
        }
}

/// A quad without a slot is a glyph the atlas could not hold: its key was
/// never cached and its cell rectangle exceeds the texture; it renders
/// blank, isolating the failure to that cell.
pub open spec fn spec_flush_quads_blank(orig: TerminalBackend, fg: Seq<FgQuad>) -> bool {
    forall|i: int|
        0 <= i < fg.len() && (#[trigger] fg[i]).uv_w == 0 ==> {
            let q = fg[i];
            &&& !orig.atlas.live(q.key)
            &&& (q.width > orig.atlas.width || q.height > orig.atlas.height)
        }
}

/// Every upload and request of the frame is for a key that was not cached
/// before and is live afterwards with the enqueued slot rectangle.
pub open spec fn spec_flush_outputs_live(
    orig: TerminalBackend,
    a: Atlas,
    ups: Seq<PendingUpload>,
    reqs: Seq<RasterRequest>,
) -> bool {
    &&& forall|j: int|
        0 <= j < ups.len() ==> {
            let u = #[trigger] ups[j];
            &&& !orig.atlas.live(u.key)
            &&& a.live(u.key)
            &&& a.rect_of(u.key) == u.rect
        }
    &&& forall|j: int|
        0 <= j < reqs.len() ==> {
            let r = #[trigger] reqs[j];
            &&& !orig.atlas.live(r.key)
            &&& a.live(r.key)
            &&& a.rect_of(r.key) == r.rect
        }
}

/// The frame's uploads and requests hold pairwise distinct keys: one
/// piece of work per missed key.
pub open spec fn spec_flush_outputs_distinct(
    ups: Seq<PendingUpload>,
    reqs: Seq<RasterRequest>,
) -> bool {
    &&& forall|j1: int, j2: int|
        0 <= j1 < j2 < ups.len() ==> (#[trigger] ups[j1]).key != (#[trigger] ups[j2]).key
    &&& forall|j1: int, j2: int|
        0 <= j1 < j2 < reqs.len() ==> (#[trigger] reqs[j1]).key != (#[trigger] reqs[j2]).key
    &&& forall|j1: int, j2: int|
        0 <= j1 < ups.len() && 0 <= j2 < reqs.len() ==> (#[trigger] ups[j1]).key != (
        #[trigger] reqs[j2]).key
}

/// Every cache miss gets its work: the first quad of the frame for a key
/// that was not cached before either has an upload (an implemented
/// programmatic glyph of renderable size), a rasterization request (a
/// font glyph), or is a programmatic glyph with nothing to render.
pub open spec fn spec_flush_miss_served(
    orig: TerminalBackend,
    fg: Seq<FgQuad>,
    ups: Seq<PendingUpload>,
    reqs: Seq<RasterRequest>,
) -> bool {
    forall|i: int|
        0 <= i < fg.len() && (#[trigger] fg[i]).uv_w != 0 && !orig.atlas.live(fg[i].key) && (
        forall|i2: int| 0 <= i2 < i ==> (#[trigger] fg[i2]).key != fg[i].key) ==> {
            let q = fg[i];
            let ch = orig.grid()[q.row * orig.cols + q.col].symbol[0];
            if spec_is_programmatic(ch as u32) {
                if crate::programmatic::spec_programmatic_implemented(ch as u32)
                    && crate::programmatic::spec_dims_ok(q.width, q.height) {
                    exists|j: int| 0 <= j < ups.len() && (#[trigger] ups[j]).key == q.key
                } else {
                    true
                }
            } else {
                exists|j: int| 0 <= j < reqs.len() && (#[trigger] reqs[j]).key == q.key
            }
        }
}

/// A frame step that left the atlas unchanged: a cache hit (the quad
/// samples the stored slot) or a slot failure (the quad is blank).
proof fn lemma_flush_step_nochange(
    orig: TerminalBackend,
    a: Atlas,
    fg_old: Seq<FgQuad>,
    fg_new: Seq<FgQuad>,
    ups: Seq<PendingUpload>,
    reqs: Seq<RasterRequest>,
    q: FgQuad,
)
    requires
        Atlas::keys_preserved(orig.atlas, a),
        spec_flush_provenance(orig, a, fg_old),
        spec_flush_quads_slots(a, fg_old),
        spec_flush_quads_blank(orig, fg_old),
        spec_flush_outputs_live(orig, a, ups, reqs),
        spec_flush_miss_served(orig, fg_old, ups, reqs),
        fg_new == fg_old.push(q),
        a.width == orig.atlas.width,
        a.height == orig.atlas.height,
        q.uv_w != 0 ==> a.live(q.key) && a.rect_of(q.key) == (CacheRect {
            x: q.u,
            y: q.v,
            width: q.uv_w,
            height: q.uv_h,
        }),
        q.uv_w == 0 ==> !a.live(q.key) && (q.width > a.width || q.height > a.height),
    ensures
        spec_flush_provenance(orig, a, fg_new),
        spec_flush_quads_slots(a, fg_new),
        spec_flush_quads_blank(orig, fg_new),
        spec_flush_miss_served(orig, fg_new, ups, reqs),
{
    assert forall|k2: Key| #[trigger] a.live(k2) implies orig.atlas.live(k2) || exists|i: int|
        0 <= i < fg_new.len() && (#[trigger] fg_new[i]).key == k2 && fg_new[i].uv_w != 0 by {
        if !orig.atlas.live(k2) {
            let i = choose|i: int|
                0 <= i < fg_old.len() && (#[trigger] fg_old[i]).key == k2 && fg_old[i].uv_w != 0;
            assert(fg_new[i] == fg_old[i]);
        }
    }
    assert forall|i: int| 0 <= i < fg_new.len() && (#[trigger] fg_new[i]).uv_w != 0 implies {
        let q2 = fg_new[i];
        &&& a.live(q2.key)
        &&& a.rect_of(q2.key) == (CacheRect { x: q2.u, y: q2.v, width: q2.uv_w, height: q2.uv_h })
    } by {
        if i < fg_old.len() {
            assert(fg_new[i] == fg_old[i]);
        } else {
            assert(fg_new[i] == q);
        }
    }
    assert forall|i: int| 0 <= i < fg_new.len() && (#[trigger] fg_new[i]).uv_w == 0 implies {
        let q2 = fg_new[i];
        &&& !orig.atlas.live(q2.key)
        &&& (q2.width > orig.atlas.width || q2.height > orig.atlas.height)
    } by {
        if i < fg_old.len() {
            assert(fg_new[i] == fg_old[i]);
        } else {
            assert(fg_new[i] == q);
            if orig.atlas.live(q.key) {
                assert(a.live(q.key));
            }
        }
    }
    assert forall|i: int|
        0 <= i < fg_new.len() && (#[trigger] fg_new[i]).uv_w != 0 && !orig.atlas.live(
            fg_new[i].key,
        ) && (forall|i2: int| 0 <= i2 < i ==> (#[trigger] fg_new[i2]).key != fg_new[i].key) implies
        {
            let q2 = fg_new[i];
            let ch = orig.grid()[q2.row * orig.cols + q2.col].symbol[0];
            if spec_is_programmatic(ch as u32) {
                if crate::programmatic::spec_programmatic_implemented(ch as u32)
                    && crate::programmatic::spec_dims_ok(q2.width, q2.height) {
                    exists|j: int| 0 <= j < ups.len() && (#[trigger] ups[j]).key == q2.key
                } else {
                    true
                }
            } else {
                exists|j: int| 0 <= j < reqs.len() && (#[trigger] reqs[j]).key == q2.key
            }
        } by {
        if i < fg_old.len() {
            assert(fg_new[i] == fg_old[i]);
            assert forall|i2: int| 0 <= i2 < i implies (#[trigger] fg_old[i2]).key
                != fg_old[i].key by {
                assert(fg_new[i2] == fg_old[i2]);
            }
        } else {
            // The new quad hit the cache with a key the frame had not
            // seen: provenance says an earlier quad obtained that slot,
            // contradicting first occurrence.
            assert(fg_new[i] == q);
            assert(a.live(q.key));
            let i0 = choose|i0: int|
                0 <= i0 < fg_old.len() && (#[trigger] fg_old[i0]).key == q.key && fg_old[i0].uv_w
                    != 0;
            assert((#[trigger] fg_new[i0]).key == fg_new[i].key);
            assert(false);
        }
    }
}

/// A frame step that allocated a fresh slot: the quad samples it, and
/// `kind` says what work joined the outputs (0: a programmatic upload,
/// 1: a font rasterization request, 2: nothing, for a programmatic glyph
/// with no renderer).
proof fn lemma_flush_step_miss(
    orig: TerminalBackend,
    pre: Atlas,
    post: Atlas,
    fg_old: Seq<FgQuad>,
    fg_new: Seq<FgQuad>,
    ups_old: Seq<PendingUpload>,
    ups_new: Seq<PendingUpload>,
    reqs_old: Seq<RasterRequest>,
    reqs_new: Seq<RasterRequest>,
    q: FgQuad,
    kind: int,
)
    requires
        Atlas::keys_preserved(orig.atlas, pre),
        spec_flush_provenance(orig, pre, fg_old),
        spec_flush_quads_slots(pre, fg_old),
        spec_flush_quads_blank(orig, fg_old),
        spec_flush_outputs_live(orig, pre, ups_old, reqs_old),
        spec_flush_outputs_distinct(ups_old, reqs_old),
        spec_flush_miss_served(orig, fg_old, ups_old, reqs_old),
        fg_new == fg_old.push(q),
        pre.width == orig.atlas.width,
        pre.height == orig.atlas.height,
        Atlas::keys_preserved(pre, post),
        forall|k2: Key| #[trigger] post.live(k2) ==> k2 == q.key || pre.live(k2),
        !pre.live(q.key),
        post.live(q.key),
        post.rect_of(q.key) == (CacheRect { x: q.u, y: q.v, width: q.uv_w, height: q.uv_h }),
        q.uv_w != 0,
        0 <= kind <= 2,
        kind == 0 ==> ups_new == ups_old.push(ups_new.last()) && ups_new.last().key == q.key
            && ups_new.last().rect == (CacheRect {
            x: q.u,
            y: q.v,
            width: q.uv_w,
            height: q.uv_h,
        }) && reqs_new == reqs_old,
        kind == 1 ==> reqs_new == reqs_old.push(reqs_new.last()) && reqs_new.last().key == q.key
            && reqs_new.last().rect == (CacheRect {
            x: q.u,
            y: q.v,
            width: q.uv_w,
            height: q.uv_h,
        }) && ups_new == ups_old,
        kind == 2 ==> ups_new == ups_old && reqs_new == reqs_old,
        ({
            let ch = orig.grid()[q.row * orig.cols + q.col].symbol[0];
            &&& (kind == 0 ==> spec_is_programmatic(ch as u32))
            &&& (kind == 1 ==> !spec_is_programmatic(ch as u32))
            &&& (kind == 2 ==> spec_is_programmatic(ch as u32) && !(
            crate::programmatic::spec_programmatic_implemented(ch as u32)
                && crate::programmatic::spec_dims_ok(q.width, q.height)))
        }),
    ensures
        Atlas::keys_preserved(orig.atlas, post),
        spec_flush_provenance(orig, post, fg_new),
        spec_flush_quads_slots(post, fg_new),
        spec_flush_quads_blank(orig, fg_new),
        spec_flush_outputs_live(orig, post, ups_new, reqs_new),
        spec_flush_outputs_distinct(ups_new, reqs_new),
        spec_flush_miss_served(orig, fg_new, ups_new, reqs_new),
{
    Atlas::lemma_keys_preserved_trans(orig.atlas, pre, post);
    let nrect = CacheRect { x: q.u, y: q.v, width: q.uv_w, height: q.uv_h };
    assert(!orig.atlas.live(q.key)) by {
        if orig.atlas.live(q.key) {
            assert(pre.live(q.key));
        }
    }
    assert forall|k2: Key| #[trigger] post.live(k2) implies orig.atlas.live(k2) || exists|i: int|
        0 <= i < fg_new.len() && (#[trigger] fg_new[i]).key == k2 && fg_new[i].uv_w != 0 by {
        if k2 == q.key {
            assert((#[trigger] fg_new[fg_old.len() as int]).key == k2 && fg_new[fg_old.len() as int].uv_w != 0);
        } else {
            assert(pre.live(k2));
            if !orig.atlas.live(k2) {
                let i = choose|i: int|
                    0 <= i < fg_old.len() && (#[trigger] fg_old[i]).key == k2 && fg_old[i].uv_w != 0;
                assert((#[trigger] fg_new[i]) == fg_old[i]);
            }
        }
    }
    assert forall|i: int| 0 <= i < fg_new.len() && (#[trigger] fg_new[i]).uv_w != 0 implies {
        let q2 = fg_new[i];
        &&& post.live(q2.key)
        &&& post.rect_of(q2.key) == (CacheRect { x: q2.u, y: q2.v, width: q2.uv_w, height: q2.uv_h })
    } by {
        if i < fg_old.len() {
            assert(fg_new[i] == fg_old[i]);
            assert(pre.live(fg_old[i].key));
        } else {
            assert(fg_new[i] == q);
        }
    }
    assert forall|i: int| 0 <= i < fg_new.len() && (#[trigger] fg_new[i]).uv_w == 0 implies {
        let q2 = fg_new[i];
        &&& !orig.atlas.live(q2.key)
        &&& (q2.width > orig.atlas.width || q2.height > orig.atlas.height)
    } by {
        if i < fg_old.len() {
            assert(fg_new[i] == fg_old[i]);
        }
    }
    assert forall|j: int| 0 <= j < ups_new.len() implies {
        let u = #[trigger] ups_new[j];
        &&& !orig.atlas.live(u.key)
        &&& post.live(u.key)
        &&& post.rect_of(u.key) == u.rect
    } by {
        if j < ups_old.len() {
            assert(ups_new[j] == ups_old[j]);
            assert(pre.live(ups_old[j].key));
        } else {
            assert(ups_new[j] == ups_old.push(ups_new.last())[ups_old.len() as int]);
            assert(ups_new[j] == ups_new.last());
        }
    }
    assert forall|j: int| 0 <= j < reqs_new.len() implies {
        let r = #[trigger] reqs_new[j];
        &&& !orig.atlas.live(r.key)
        &&& post.live(r.key)
        &&& post.rect_of(r.key) == r.rect
    } by {
        if j < reqs_old.len() {
            assert(reqs_new[j] == reqs_old[j]);
            assert(pre.live(reqs_old[j].key));
        } else {
            assert(reqs_new[j] == reqs_old.push(reqs_new.last())[reqs_old.len() as int]);
            assert(reqs_new[j] == reqs_new.last());
        }
    }
    assert forall|j1: int, j2: int| 0 <= j1 < j2 < ups_new.len() implies (
    #[trigger] ups_new[j1]).key != (#[trigger] ups_new[j2]).key by {
        if j2 < ups_old.len() {
            assert(ups_new[j1] == ups_old[j1] && ups_new[j2] == ups_old[j2]);
        } else {
            assert(ups_new[j1] == ups_old[j1]);
            assert(ups_new[j2].key == q.key);
            assert(pre.live(ups_old[j1].key));
        }
    }
    assert forall|j1: int, j2: int| 0 <= j1 < j2 < reqs_new.len() implies (
    #[trigger] reqs_new[j1]).key != (#[trigger] reqs_new[j2]).key by {
        if j2 < reqs_old.len() {
            assert(reqs_new[j1] == reqs_old[j1] && reqs_new[j2] == reqs_old[j2]);
        } else {
            assert(reqs_new[j1] == reqs_old[j1]);
            assert(reqs_new[j2].key == q.key);
            assert(pre.live(reqs_old[j1].key));
        }
    }
    assert forall|j1: int, j2: int|
        0 <= j1 < ups_new.len() && 0 <= j2 < reqs_new.len() implies (#[trigger] ups_new[j1]).key
        != (#[trigger] reqs_new[j2]).key by {
        if j1 < ups_old.len() && j2 < reqs_old.len() {
            assert(ups_new[j1] == ups_old[j1] && reqs_new[j2] == reqs_old[j2]);
        } else if j1 < ups_old.len() {
            assert(reqs_new[j2].key == q.key && ups_new[j1] == ups_old[j1]);
            assert(pre.live(ups_old[j1].key));
        } else {
            assert(ups_new[j1].key == q.key && reqs_new[j2] == reqs_old[j2]);
            assert(pre.live(reqs_old[j2].key));
        }
    }
    assert forall|i: int|
        0 <= i < fg_new.len() && (#[trigger] fg_new[i]).uv_w != 0 && !orig.atlas.live(
            fg_new[i].key,
        ) && (forall|i2: int| 0 <= i2 < i ==> (#[trigger] fg_new[i2]).key != fg_new[i].key) implies
        {
            let q2 = fg_new[i];
            let ch = orig.grid()[q2.row * orig.cols + q2.col].symbol[0];
            if spec_is_programmatic(ch as u32) {
                if crate::programmatic::spec_programmatic_implemented(ch as u32)
                    && crate::programmatic::spec_dims_ok(q2.width, q2.height) {
                    exists|j: int| 0 <= j < ups_new.len() && (#[trigger] ups_new[j]).key == q2.key
                } else {
                    true
                }
            } else {
                exists|j: int| 0 <= j < reqs_new.len() && (#[trigger] reqs_new[j]).key == q2.key
            }
        } by {
        if i < fg_old.len() {
            assert(fg_new[i] == fg_old[i]);
            assert forall|i2: int| 0 <= i2 < i implies (#[trigger] fg_old[i2]).key
                != fg_old[i].key by {
                assert(fg_new[i2] == fg_old[i2]);
            }
            let q2 = fg_old[i];
            let ch = orig.grid()[q2.row * orig.cols + q2.col].symbol[0];
            if spec_is_programmatic(ch as u32) {
                if crate::programmatic::spec_programmatic_implemented(ch as u32)
                    && crate::programmatic::spec_dims_ok(q2.width, q2.height) {
                    let j = choose|j: int|
                        0 <= j < ups_old.len() && (#[trigger] ups_old[j]).key == q2.key;
                    assert((#[trigger] ups_new[j]).key == q2.key);
                }
            } else {
                let j = choose|j: int|
                    0 <= j < reqs_old.len() && (#[trigger] reqs_old[j]).key == q2.key;
                assert((#[trigger] reqs_new[j]).key == q2.key);
            }
        } else {
            assert(fg_new[i] == q);
            if kind == 0 {
                assert((#[trigger] ups_new[ups_old.len() as int]).key == q.key);
            } else if kind == 1 {
                assert((#[trigger] reqs_new[reqs_old.len() as int]).key == q.key);
            }
        }
    }
}

/// The quad lists of a frame are aligned and each pair is well formed.
pub open spec fn spec_quads_ok(t: TerminalBackend, bg: Seq<BgQuad>, fg: Seq<FgQuad>) -> bool {
    &&& bg.len() == fg.len()
    &&& forall|i: int|
        0 <= i < fg.len() ==> spec_fg_quad_ok(t, #[trigger] fg[i]) && spec_bg_quad_matches(
            t,
            bg[i],
            fg[i],
        )
}

/// A well-formed rasterization request: synthetic styles are never
/// requested for an emoji character, the slot matches the requested
/// dimensions (one cell high, the character's display width wide), and it
/// lies inside the atlas texture.
pub open spec fn spec_request_ok(t: TerminalBackend, r: RasterRequest) -> bool {
    &&& (crate::unicode::is_emoji_codepoint(r.ch) ==> !r.fake_bold && !r.fake_italic)
    &&& r.rect.width == r.width
    &&& r.rect.height == r.height
    &&& r.height == t.font_height
    &&& r.rect.x + r.rect.width <= t.atlas.width
    &&& r.rect.y + r.rect.height <= t.atlas.height
}

pub open spec fn spec_requests_ok(t: TerminalBackend, rs: Seq<RasterRequest>) -> bool {
    forall|i: int| 0 <= i < rs.len() ==> spec_request_ok(t, #[trigger] rs[i])
}

/// A well-formed pending upload: a full pixel buffer for its slot
/// rectangle, which lies inside the atlas texture.
pub open spec fn spec_upload_ok(t: TerminalBackend, u: PendingUpload) -> bool {
    &&& u.pixels@.len() == u.rect.width * u.rect.height
    &&& u.is_color == false
    &&& u.rect.x + u.rect.width <= t.atlas.width
    &&& u.rect.y + u.rect.height <= t.atlas.height
}

pub open spec fn spec_uploads_ok(t: TerminalBackend, us: Seq<PendingUpload>) -> bool {
    forall|i: int| 0 <= i < us.len() ==> spec_upload_ok(t, #[trigger] us[i])
}

/// A push seen from the outside: the new list is the old list plus its
/// own last element.
proof fn lemma_req_push_shape(rs_old: Seq<RasterRequest>, rs_new: Seq<RasterRequest>, req: RasterRequest)
    requires
        rs_new == rs_old.push(req),
    ensures
        rs_new.last() == req,
        rs_new == rs_old.push(rs_new.last()),
        rs_new.len() == rs_old.len() + 1,
{
    assert(rs_old.push(req)[rs_old.len() as int] == req);
}

proof fn lemma_up_push_shape(us_old: Seq<PendingUpload>, us_new: Seq<PendingUpload>, up: PendingUpload)
    requires
        us_new == us_old.push(up),
    ensures
        us_new.last() == up,
        us_new == us_old.push(us_new.last()),
        us_new.len() == us_old.len() + 1,
{
    assert(us_old.push(up)[us_old.len() as int] == up);
}

proof fn lemma_requests_push(
    t: TerminalBackend,
    rs_old: Seq<RasterRequest>,
    rs_new: Seq<RasterRequest>,
    req: RasterRequest,
)
    requires
        rs_new == rs_old.push(req),
        spec_requests_ok(t, rs_old),
        spec_request_ok(t, req),
    ensures
        spec_requests_ok(t, rs_new),
{
    assert forall|i: int| 0 <= i < rs_new.len() implies spec_request_ok(t, #[trigger] rs_new[i]) by {
        if i < rs_old.len() {
            assert(rs_new[i] == rs_old[i]);
        } else {
            assert(rs_new[i] == req);
        }
    }
}

proof fn lemma_uploads_push(
    t: TerminalBackend,
    us_old: Seq<PendingUpload>,
    us_new: Seq<PendingUpload>,
    up: PendingUpload,
)
    requires
        us_new == us_old.push(up),
        spec_uploads_ok(t, us_old),
        spec_upload_ok(t, up),
    ensures
        spec_uploads_ok(t, us_new),
{
    assert forall|i: int| 0 <= i < us_new.len() implies spec_upload_ok(t, #[trigger] us_new[i]) by {
        if i < us_old.len() {
            assert(us_new[i] == us_old[i]);
        } else {
            assert(us_new[i] == up);
        }
    }
}

proof fn lemma_quads_push(
    t: TerminalBackend,
    bg_old: Seq<BgQuad>,
    bg_new: Seq<BgQuad>,
    fg_old: Seq<FgQuad>,
    fg_new: Seq<FgQuad>,
    bgq: BgQuad,
    fgq: FgQuad,
)
    requires
        bg_new == bg_old.push(bgq),
        fg_new == fg_old.push(fgq),
        spec_quads_ok(t, bg_old, fg_old),
        spec_fg_quad_ok(t, fgq),
        spec_bg_quad_matches(t, bgq, fgq),
    ensures
        spec_quads_ok(t, bg_new, fg_new),
{
    assert forall|i: int| 0 <= i < fg_new.len() implies spec_fg_quad_ok(t, #[trigger] fg_new[i])
        && spec_bg_quad_matches(t, bg_new[i], fg_new[i]) by {
        if i < fg_old.len() {
            assert(fg_new[i] == fg_old[i]);
            assert(bg_new[i] == bg_old[i]);
        } else {
            assert(fg_new[i] == fgq);
            assert(bg_new[i] == bgq);
        }
    }
}

impl TerminalBackend {
    /// How many of a row's shaped glyphs land in a cell: those whose
    /// cluster points into the row's text.
    pub open spec fn spec_row_glyph_count(self, r: int, glyphs: Seq<ShapedGlyph>) -> int
        decreases glyphs.len(),
    {
        if glyphs.len() == 0 {
            0
        } else {
            self.spec_row_glyph_count(r, glyphs.drop_last()) + (
            if glyphs.last().cluster < spec_rowmap(self.row_cells(r)).len() {
                1int
            } else {
                0int
            })
        }
    }

    /// How many glyphs the first `upto` rows of a frame place.
    pub open spec fn spec_frame_glyph_count(self, shaping: Seq<RowRunView>, upto: int) -> int
        decreases upto,
    {
        if upto <= 0 {
            0
        } else {
            self.spec_frame_glyph_count(shaping, upto - 1) + self.spec_row_glyph_count(
                upto - 1,
                shaping[upto - 1].glyphs,
            )
        }
    }

    /// A row without text places no glyphs.
    proof fn lemma_row_count_empty(self, r: int, glyphs: Seq<ShapedGlyph>)
        requires
            spec_rowmap(self.row_cells(r)).len() == 0,
        ensures
            self.spec_row_glyph_count(r, glyphs) == 0,
        decreases glyphs.len(),
    {
        if glyphs.len() > 0 {
            self.lemma_row_count_empty(r, glyphs.drop_last());
        }
    }

    /// Builds one frame. Walks each row's shaped glyphs, maps each cluster
    /// back to its cell, resolves the glyph's atlas slot (rendering
    /// programmatic glyphs on a miss, and emitting a rasterization request
    /// for font glyphs), and emits one background and one foreground quad
    /// per glyph.
    ///
    /// The continuation columns of a wide character hold no characters, so
    /// no cluster maps back to them and no independent quad is emitted for
    /// them. A frame whose every key is already cached emits no uploads
    /// and no requests and leaves the atlas untouched. Synthetic bold and
    /// italic are never requested for emoji characters.
    ///
    /// Unless the atlas had to evict mid-frame (`out.evicted`): previously
    /// cached slots survive unchanged; every quad that obtained a slot
    /// samples exactly its key's live rectangle, while a quad whose glyph
    /// exceeds the texture renders blank and changes nothing; each upload
    /// and request is for a key that was not cached before and is live
    /// afterwards with the enqueued rectangle, with one piece of work per
    /// missed key; and the first quad for each fresh key has its work
    /// enqueued (an upload for an implemented programmatic glyph, a
    /// request for a font glyph).
    #[verifier::rlimit(100)]
    pub fn flush(&mut self, shaping: &Vec<RowRun>) -> (out: FrameOutput)
        requires
            old(self).wf(),
            shaping@.len() == old(self).rows,
        ensures
            final(self).wf(),
            *final(self) == (TerminalBackend { atlas: final(self).atlas, ..*old(self) }),
            final(self).atlas.width == old(self).atlas.width,
            final(self).atlas.height == old(self).atlas.height,
            spec_quads_ok(*old(self), out.bg_quads@, out.fg_quads@),
            out.fg_quads@.len() == old(self).spec_frame_glyph_count(
                shaping@.map_values(|rr: RowRun| rr@),
                old(self).rows as int,
            ),
            old(self).spec_all_hit(shaping@.map_values(|rr: RowRun| rr@)) ==> (out.uploads@.len()
                == 0 && out.requests@.len() == 0 && final(self).atlas == old(self).atlas),
            spec_requests_ok(*old(self), out.requests@),
            spec_uploads_ok(*old(self), out.uploads@),
            !out.evicted ==> {
                &&& Atlas::keys_preserved(old(self).atlas, final(self).atlas)
                &&& spec_flush_provenance(*old(self), final(self).atlas, out.fg_quads@)
                &&& spec_flush_quads_slots(final(self).atlas, out.fg_quads@)
                &&& spec_flush_quads_blank(*old(self), out.fg_quads@)
                &&& spec_flush_outputs_live(
                    *old(self),
                    final(self).atlas,
                    out.uploads@,
                    out.requests@,
                )
                &&& spec_flush_outputs_distinct(out.uploads@, out.requests@)
                &&& spec_flush_miss_served(
                    *old(self),
                    out.fg_quads@,
                    out.uploads@,
                    out.requests@,
                )
            },
    {
        let ghost orig = *old(self);
        let ghost shviews = shaping@.map_values(|rr: RowRun| rr@);
        let mut bg_quads: Vec<BgQuad> = Vec::new();
        let mut fg_quads: Vec<FgQuad> = Vec::new();
        let mut uploads: Vec<PendingUpload> = Vec::new();
        let mut requests: Vec<RasterRequest> = Vec::new();
        let mut evicted: bool = false;
        let cols = self.cols as usize;
        let rows = self.rows as usize;
        let fw = self.font_width;
        let fh = self.font_height;
        let mut y: usize = 0;
        while y < rows
            invariant
                orig.wf(),
                shaping@.len() == orig.rows,
                shviews == shaping@.map_values(|rr: RowRun| rr@),
                y <= rows,
                rows == orig.rows,
                cols == orig.cols,
                fw == orig.font_width,
                fh == orig.font_height,
                self.wf(),
                *self == (TerminalBackend { atlas: self.atlas, ..orig }),
                self.atlas.width == orig.atlas.width,
                self.atlas.height == orig.atlas.height,
                spec_quads_ok(orig, bg_quads@, fg_quads@),
                fg_quads@.len() == orig.spec_frame_glyph_count(shviews, y as int),
                orig.spec_all_hit(shviews) ==> (uploads@.len() == 0 && requests@.len() == 0
                    && self.atlas == orig.atlas),
                spec_requests_ok(orig, requests@),
                spec_uploads_ok(orig, uploads@),
                !evicted ==> {
                    &&& Atlas::keys_preserved(orig.atlas, self.atlas)
                    &&& spec_flush_provenance(orig, self.atlas, fg_quads@)
                    &&& spec_flush_quads_slots(self.atlas, fg_quads@)
                    &&& spec_flush_quads_blank(orig, fg_quads@)
                    &&& spec_flush_outputs_live(orig, self.atlas, uploads@, requests@)
                    &&& spec_flush_outputs_distinct(uploads@, requests@)
                    &&& spec_flush_miss_served(orig, fg_quads@, uploads@, requests@)
                },
            decreases rows - y,
        {
            let rm = self.build_rowmap(y as u16);
            proof {
                assert(self.row_cells(y as int) == orig.row_cells(y as int));
            }
            if rm.len() > 0 {
                let run = &shaping[y];
                let ghost runv = shviews[y as int];
                proof {
                    assert(runv == run@);
                }
                let nglyphs = run.glyphs.len();
                let mut j: usize = 0;
                while j < nglyphs
                    invariant
                        orig.wf(),
                        shaping@.len() == orig.rows,
                        shviews == shaping@.map_values(|rr: RowRun| rr@),
                        y < rows,
                        rows == orig.rows,
                        cols == orig.cols,
                        fw == orig.font_width,
                        fh == orig.font_height,
                        j <= nglyphs,
                        nglyphs == runv.glyphs.len(),
                        runv == shviews[y as int],
                        run@ == runv,
                        rm@.len() == spec_rowmap(orig.row_cells(y as int)).len(),
                        forall|k: int|
                            0 <= k < rm@.len() ==> #[trigger] rm@[k] as int == spec_rowmap(
                                orig.row_cells(y as int),
                            )[k],
                        forall|k: int| 0 <= k < rm@.len() ==> #[trigger] rm@[k] < cols,
                        self.wf(),
                        *self == (TerminalBackend { atlas: self.atlas, ..orig }),
                        self.atlas.width == orig.atlas.width,
                        self.atlas.height == orig.atlas.height,
                        spec_quads_ok(orig, bg_quads@, fg_quads@),
                        fg_quads@.len() == orig.spec_frame_glyph_count(shviews, y as int)
                            + orig.spec_row_glyph_count(y as int, runv.glyphs.take(j as int)),
                        orig.spec_all_hit(shviews) ==> (uploads@.len() == 0 && requests@.len() == 0
                            && self.atlas == orig.atlas),
                        spec_requests_ok(orig, requests@),
                        spec_uploads_ok(orig, uploads@),
                        !evicted ==> {
                            &&& Atlas::keys_preserved(orig.atlas, self.atlas)
                            &&& spec_flush_provenance(orig, self.atlas, fg_quads@)
                            &&& spec_flush_quads_slots(self.atlas, fg_quads@)
                            &&& spec_flush_quads_blank(orig, fg_quads@)
                            &&& spec_flush_outputs_live(orig, self.atlas, uploads@, requests@)
                            &&& spec_flush_outputs_distinct(uploads@, requests@)
                            &&& spec_flush_miss_served(orig, fg_quads@, uploads@, requests@)
                        },
                    decreases nglyphs - j,
                {
                    let g = run.glyphs[j];
                    let cluster = g.cluster as usize;
                    proof {
                        assert(runv.glyphs.take(j + 1 as int).drop_last() =~= runv.glyphs.take(
                            j as int,
                        ));
                        assert(runv.glyphs.take(j + 1 as int).last() == runv.glyphs[j as int]);
                        assert(runv.glyphs[j as int] == g);
                    }
                    if cluster < rm.len() {
                        let ci = rm[cluster];
                        proof {
                            lemma_rowmap_targets(orig.row_cells(y as int), cluster as int);
                            crate::bitmap::lemma_mul_abs_bound(
                                y as int,
                                orig.cols as int,
                                4096,
                                4096,
                            );
                            crate::bitmap::lemma_mul_abs_bound(
                                orig.cols as int,
                                orig.rows as int,
                                4096,
                                4096,
                            );
                            assert(0 <= y as int * (orig.cols as int) && y as int * (
                            orig.cols as int) + cols <= (orig.rows as int) * (orig.cols as int) && (
                            y as int + 1) * (orig.cols as int) == y as int * (orig.cols as int)
                                + orig.cols as int) by (nonlinear_arith)
                                requires
                                    0 <= y < orig.rows,
                                    1 <= orig.cols,
                                    cols == orig.cols,
                            ;
                        }
                        let row_start = y * cols;
                        let idx = row_start + ci;
                        let ghost cellv = orig.row_cells(y as int)[ci as int];
                        proof {
                            assert(orig.row_cells(y as int)[ci as int] == orig.grid()[row_start
                                + ci]);
                            assert(self.cells@[idx as int]@ == cellv);
                            assert(cellv.symbol.len() > 0);
                        }
                        let ch = self.cells[idx].symbol[0];
                        let cell_fg = self.cells[idx].fg;
                        let cell_bg = self.cells[idx].bg;
                        let modifier = self.cells[idx].modifier;
                        let cw = crate::unicode::char_cell_width(ch);
                        proof {
                            assert(1 <= cw as int * (fw as int) <= 12000) by (nonlinear_arith)
                                requires
                                    1 <= cw <= 3,
                                    1 <= fw <= 4000,
                            ;
                            assert(0 <= ci as int * (fw as int) <= 0x1000000) by (nonlinear_arith)
                                requires
                                    0 <= ci < 4096,
                                    1 <= fw <= 4000,
                            ;
                            assert(0 <= y as int * (fh as int) <= 0x1000000) by (nonlinear_arith)
                                requires
                                    0 <= y < 4096,
                                    1 <= fh <= 4000,
                            ;
                        }
                        let glyph_w = cw as u32 * fw;
                        let style = modifier & 0x0005;
                        let is_prog = crate::programmatic::is_programmatic_glyph(ch);
                        let key = if is_prog {
                            Key { style, glyph: ch as u32, font: self.fallback_font }
                        } else {
                            Key { style, glyph: g.glyph_id, font: run.font }
                        };
                        proof {
                            assert(orig.spec_glyph_cell(y as int, g) == ci as int);
                            assert(key == orig.spec_glyph_key(y as int, runv, g));
                        }
                        let ghost atlas_pre = self.atlas;
                        let ghost ups_step_old = uploads@;
                        let ghost reqs_step_old = requests@;
                        let mut step_kind: u8 = 4;
                        let len_before = self.atlas.len();
                        let slot_opt = self.atlas.get(key, glyph_w, fh);
                        let len_after = self.atlas.len();
                        match &slot_opt {
                            Some(s0) => {
                                if !s0.cached && (len_after == 0 || len_after - 1 != len_before) {
                                    evicted = true;
                                }
                            },
                            None => {},
                        }
                        let reversed = modifier & MOD_REVERSED != 0;
                        let fg_rgb = if reversed {
                            resolve_color(cell_bg, self.reset_bg)
                        } else {
                            resolve_color(cell_fg, self.reset_fg)
                        };
                        let bg_rgb = if reversed {
                            resolve_color(cell_fg, self.reset_fg)
                        } else {
                            resolve_color(cell_bg, self.reset_bg)
                        };
                        let fg_packed = pack_vertex_color(fg_rgb);
                        let bg_packed = pack_vertex_color(bg_rgb);
                        let x_px = ci as u32 * fw;
                        let y_px = y as u32 * fh;
                        let bgq = BgQuad {
                            col: ci as u16,
                            row: y as u16,
                            x: x_px,
                            y: y_px,
                            width: glyph_w,
                            height: fh,
                            color: bg_packed,
                        };
                        let mut fgq = FgQuad {
                            col: ci as u16,
                            row: y as u16,
                            x: x_px,
                            y: y_px,
                            width: glyph_w,
                            height: fh,
                            color: fg_packed,
                            key,
                            u: 0,
                            v: 0,
                            uv_w: 0,
                            uv_h: 0,
                        };
                        match slot_opt {
                            None => {},
                            Some(slot) => {
                                proof {
                                    self.atlas.lemma_rect_of_in_bounds(key);
                                    assert(slot.rect == self.atlas.rect_of(key));
                                }
                                if slot.cached {
                                    step_kind = 3;
                                }
                                fgq.u = slot.rect.x;
                                fgq.v = slot.rect.y;
                                fgq.uv_w = slot.rect.width;
                                fgq.uv_h = slot.rect.height;
                                if !slot.cached {
                                    proof {
                                        if orig.spec_all_hit(shviews) {
                                            assert(atlas_pre == orig.atlas);
                                            assert(orig.atlas.live(
                                                orig.spec_glyph_key(y as int, runv, g),
                                            ));
                                            assert(atlas_pre.live(key));
                                            assert(slot.cached == true);
                                        }
                                    }
                                    if is_prog {
                                        match crate::programmatic::render_programmatic_glyph(
                                            ch,
                                            glyph_w,
                                            fh,
                                        ) {
                                            Some(bitmap) => {
                                                step_kind = 0;
                                                let ghost up_old = uploads@;
                                                let up = PendingUpload {
                                                    key,
                                                    rect: slot.rect,
                                                    pixels: bitmap.pixels,
                                                    is_color: false,
                                                };
                                                uploads.push(up);
                                                proof {
                                                    assert(spec_upload_ok(orig, up));
                                                    lemma_uploads_push(orig, up_old, uploads@, up);
                                                    assert(up_old == ups_step_old);
                                                    lemma_up_push_shape(ups_step_old, uploads@, up);
                                                    assert(up.key == fgq.key);
                                                    assert(up.rect == (CacheRect {
                                                        x: fgq.u,
                                                        y: fgq.v,
                                                        width: fgq.uv_w,
                                                        height: fgq.uv_h,
                                                    }));
                                                }
                                            },
                                            None => {
                                                step_kind = 2;
                                            },
                                        }
                                    } else {
                                        step_kind = 1;
                                        let emoji = crate::unicode::is_emoji_char(ch);
                                        let ghost req_old = requests@;
                                        let req = RasterRequest {
                                            key,
                                            rect: slot.rect,
                                            glyph_id: g.glyph_id,
                                            ch,
                                            width: glyph_w,
                                            height: fh,
                                            fake_bold: run.fake_bold && !emoji,
                                            fake_italic: run.fake_italic && !emoji,
                                            x_offset: g.x_offset,
                                        };
                                        requests.push(req);
                                        proof {
                                            assert(spec_request_ok(orig, req));
                                            lemma_requests_push(orig, req_old, requests@, req);
                                            assert(req_old == reqs_step_old);
                                            lemma_req_push_shape(reqs_step_old, requests@, req);
                                            assert(req.key == fgq.key);
                                            assert(req.rect == (CacheRect {
                                                x: fgq.u,
                                                y: fgq.v,
                                                width: fgq.uv_w,
                                                height: fgq.uv_h,
                                            }));
                                        }
                                    }
                                }
                            },
                        }
                        let ghost fg_old = fg_quads@;
                        let ghost bg_old = bg_quads@;
                        bg_quads.push(bgq);
                        fg_quads.push(fgq);
                        proof {
                            assert(orig.grid()[fgq.row * orig.cols + fgq.col] == cellv);
                            assert(spec_fg_quad_ok(orig, fgq));
                            assert(spec_bg_quad_matches(orig, bgq, fgq));
                            lemma_quads_push(orig, bg_old, bg_quads@, fg_old, fg_quads@, bgq, fgq);
                            if !evicted {
                                assert(fgq.row * orig.cols + fgq.col == y as int * orig.cols
                                    + ci as int);
                                let chv = orig.grid()[fgq.row * orig.cols + fgq.col].symbol[0];
                                assert(chv == ch);
                                if step_kind == 3 || step_kind == 4 {
                                    lemma_flush_step_nochange(
                                        orig,
                                        self.atlas,
                                        fg_old,
                                        fg_quads@,
                                        uploads@,
                                        requests@,
                                        fgq,
                                    );
                                } else {
                                    assert(Atlas::keys_preserved(atlas_pre, self.atlas));
                                    if step_kind == 0 {
                                        assert(uploads@ == ups_step_old.push(uploads@.last()));
                                        assert(uploads@.last().key == fgq.key
                                            && uploads@.last().rect == (CacheRect {
                                            x: fgq.u,
                                            y: fgq.v,
                                            width: fgq.uv_w,
                                            height: fgq.uv_h,
                                        }));
                                    }
                                    if step_kind == 1 {
                                        assert(requests@ == reqs_step_old.push(requests@.last()));
                                        assert(requests@.last().key == fgq.key
                                            && requests@.last().rect == (CacheRect {
                                            x: fgq.u,
                                            y: fgq.v,
                                            width: fgq.uv_w,
                                            height: fgq.uv_h,
                                        }));
                                    }
                                    lemma_flush_step_miss(
                                        orig,
                                        atlas_pre,
                                        self.atlas,
                                        fg_old,
                                        fg_quads@,
                                        ups_step_old,
                                        uploads@,
                                        reqs_step_old,
                                        requests@,
                                        fgq,
                                        step_kind as int,
                                    );
                                }
                            }
                        }
                    }
                    j = j + 1;
                }
                proof {
                    assert(runv.glyphs.take(nglyphs as int) =~= runv.glyphs);
                }
            } else {
                proof {
                    orig.lemma_row_count_empty(y as int, shviews[y as int].glyphs);
                }
            }
            y = y + 1;
        }
        FrameOutput { bg_quads, fg_quads, uploads, requests, evicted }
    }
}

/// The atlas key under which the programmatic glyph with code point `cp`
/// is pre-populated: plain style, the fallback font identity.
pub open spec fn spec_populate_key(t: TerminalBackend, cp: u32) -> Key {
    Key { style: 0, glyph: cp, font: t.fallback_font }
}

/// An upload produced by pre-population: an implemented programmatic code
/// point under the fallback font, a cell-sized slot, and exactly the
/// pixels the programmatic renderer defines for it.
pub open spec fn spec_populate_upload_exact(t: TerminalBackend, u: PendingUpload) -> bool {
    &&& u.key.style == 0
    &&& u.key.font == t.fallback_font
    &&& spec_is_programmatic(u.key.glyph)
    &&& crate::programmatic::spec_programmatic_implemented(u.key.glyph)
    &&& u.rect.width == t.font_width
    &&& u.rect.height == t.font_height
    &&& u.is_color == false
    &&& u.pixels@.len() == u.rect.width * u.rect.height
    &&& forall|x: int, y: int|
        0 <= x < u.rect.width && 0 <= y < u.rect.height ==> u.pixels@[y * u.rect.width + x]
            == #[trigger] spec_populate_pixel(u.key.glyph, u.rect.width, u.rect.height, x, y)
}

/// The pixel the programmatic renderer defines at (`x`, `y`).
pub open spec fn spec_populate_pixel(cp: u32, w: u32, h: u32, x: int, y: int) -> u32 {
    if crate::programmatic::spec_programmatic_covers(cp, w, h, 2 * x + 1, 2 * y + 1) {
        crate::bitmap::OPAQUE_WHITE
    } else {
        0u32
    }
}

/// Every key the atlas holds mid-population is accounted for: it was
/// live before, or it is the pre-population key of an already processed
/// code point.
pub open spec fn spec_pop_provenance(orig: TerminalBackend, a: Atlas, i: int) -> bool {
    forall|k2: Key|
        #[trigger] a.live(k2) ==> orig.atlas.live(k2) || exists|i0: int|
            0 <= i0 < i && k2 == spec_populate_key(
                orig,
                crate::programmatic::spec_glyph_code(i0) as u32,
            )
}

/// Every produced upload's key is live with its slot rectangle.
pub open spec fn spec_pop_uploads_live(orig: TerminalBackend, a: Atlas, ups: Seq<PendingUpload>) -> bool {
    forall|j: int|
        0 <= j < ups.len() ==> {
            let u = #[trigger] ups[j];
            &&& !orig.atlas.live(u.key)
            &&& a.live(u.key)
            &&& a.rect_of(u.key) == u.rect
        }
}

/// Every processed implemented code point whose slot fits is live.
pub open spec fn spec_pop_live_upto(orig: TerminalBackend, a: Atlas, i: int) -> bool {
    forall|i0: int|
        0 <= i0 < i && crate::programmatic::spec_programmatic_implemented(
            #[trigger] crate::programmatic::spec_glyph_code(i0) as u32,
        ) && orig.font_width <= orig.atlas.width && orig.font_height <= orig.atlas.height
            ==> a.live(
            spec_populate_key(orig, crate::programmatic::spec_glyph_code(i0) as u32),
        )
}

/// Every processed implemented code point that was not already cached has
/// an upload.
pub open spec fn spec_pop_exists_upto(orig: TerminalBackend, ups: Seq<PendingUpload>, i: int) -> bool {
    forall|i0: int|
        0 <= i0 < i && crate::programmatic::spec_programmatic_implemented(
            #[trigger] crate::programmatic::spec_glyph_code(i0) as u32,
        ) && orig.font_width <= orig.atlas.width && orig.font_height <= orig.atlas.height
            && !orig.atlas.live(
            spec_populate_key(orig, crate::programmatic::spec_glyph_code(i0) as u32),
        ) ==> exists|j: int|
            0 <= j < ups.len() && (#[trigger] ups[j]).key == spec_populate_key(
                orig,
                crate::programmatic::spec_glyph_code(i0) as u32,
            )
}

/// Every upload's key code point belongs to an already processed index.
pub open spec fn spec_pop_codes_upto(orig: TerminalBackend, ups: Seq<PendingUpload>, i: int) -> bool {
    forall|j: int|
        0 <= j < ups.len() ==> exists|i0: int|
            0 <= i0 < i && (#[trigger] ups[j]).key.glyph as int
                == crate::programmatic::spec_glyph_code(i0)
}

/// A population step that left the atlas and the uploads as they were
/// (an unimplemented code point, a too-large slot, or a cache hit).
proof fn lemma_pop_step_nochange(orig: TerminalBackend, a: Atlas, ups: Seq<PendingUpload>, i: int)
    requires
        0 <= i < 432,
        spec_pop_provenance(orig, a, i),
        spec_pop_live_upto(orig, a, i),
        spec_pop_exists_upto(orig, ups, i),
        spec_pop_codes_upto(orig, ups, i),
        crate::programmatic::spec_programmatic_implemented(
            crate::programmatic::spec_glyph_code(i) as u32,
        ) && orig.font_width <= orig.atlas.width && orig.font_height <= orig.atlas.height
            ==> a.live(spec_populate_key(orig, crate::programmatic::spec_glyph_code(i) as u32)),
    ensures
        spec_pop_provenance(orig, a, i + 1),
        spec_pop_live_upto(orig, a, i + 1),
        spec_pop_exists_upto(orig, ups, i + 1),
        spec_pop_codes_upto(orig, ups, i + 1),
{
    let ki = spec_populate_key(orig, crate::programmatic::spec_glyph_code(i) as u32);
    assert forall|k2: Key| #[trigger] a.live(k2) implies orig.atlas.live(k2) || exists|i0: int|
        0 <= i0 < i + 1 && k2 == spec_populate_key(
            orig,
            crate::programmatic::spec_glyph_code(i0) as u32,
        ) by {
        if !orig.atlas.live(k2) {
            let i0 = choose|i0: int|
                0 <= i0 < i && k2 == spec_populate_key(
                    orig,
                    crate::programmatic::spec_glyph_code(i0) as u32,
                );
            assert(0 <= i0 < i + 1 && k2 == spec_populate_key(
                orig,
                crate::programmatic::spec_glyph_code(i0) as u32,
            ));
        }
    }
    assert forall|i0: int|
        0 <= i0 < i + 1 && crate::programmatic::spec_programmatic_implemented(
            #[trigger] crate::programmatic::spec_glyph_code(i0) as u32,
        ) && orig.font_width <= orig.atlas.width && orig.font_height <= orig.atlas.height
            && !orig.atlas.live(
            spec_populate_key(orig, crate::programmatic::spec_glyph_code(i0) as u32),
        ) implies exists|j: int|
        0 <= j < ups.len() && (#[trigger] ups[j]).key == spec_populate_key(
            orig,
            crate::programmatic::spec_glyph_code(i0) as u32,
        ) by {
        if i0 < i {
        } else {
            // The code point is live but was not live before: provenance
            // names an earlier index with the same key, impossible since
            // the code points are strictly increasing.
            assert(a.live(ki));
            if !orig.atlas.live(ki) {
                let i1 = choose|i1: int|
                    0 <= i1 < i && ki == spec_populate_key(
                        orig,
                        crate::programmatic::spec_glyph_code(i1) as u32,
                    );
                crate::programmatic::lemma_glyph_code_increasing(i1, i);
                assert(crate::programmatic::spec_glyph_code(i1)
                    < crate::programmatic::spec_glyph_code(i));
                assert(false);
            }
        }
    }
}

/// A population step that allocated a fresh slot and pushed its upload.
proof fn lemma_pop_step_miss(
    orig: TerminalBackend,
    pre: Atlas,
    post: Atlas,
    ups_old: Seq<PendingUpload>,
    ups_new: Seq<PendingUpload>,
    up: PendingUpload,
    i: int,
)
    requires
        0 <= i < 432,
        spec_pop_provenance(orig, pre, i),
        spec_pop_uploads_live(orig, pre, ups_old),
        spec_pop_live_upto(orig, pre, i),
        spec_pop_exists_upto(orig, ups_old, i),
        spec_pop_codes_upto(orig, ups_old, i),
        Atlas::keys_preserved(orig.atlas, pre),
        up.key == spec_populate_key(orig, crate::programmatic::spec_glyph_code(i) as u32),
        ups_new == ups_old.push(up),
        !pre.live(up.key),
        post.live(up.key),
        post.rect_of(up.key) == up.rect,
        Atlas::keys_preserved(pre, post),
        forall|k2: Key| #[trigger] post.live(k2) ==> k2 == up.key || pre.live(k2),
    ensures
        spec_pop_provenance(orig, post, i + 1),
        spec_pop_uploads_live(orig, post, ups_new),
        spec_pop_live_upto(orig, post, i + 1),
        spec_pop_exists_upto(orig, ups_new, i + 1),
        spec_pop_codes_upto(orig, ups_new, i + 1),
        Atlas::keys_preserved(orig.atlas, post),
{
    Atlas::lemma_keys_preserved_trans(orig.atlas, pre, post);
    assert forall|k2: Key| #[trigger] post.live(k2) implies orig.atlas.live(k2) || exists|i0: int|
        0 <= i0 < i + 1 && k2 == spec_populate_key(
            orig,
            crate::programmatic::spec_glyph_code(i0) as u32,
        ) by {
        if k2 == up.key {
            assert(0 <= i < i + 1 && k2 == spec_populate_key(
                orig,
                crate::programmatic::spec_glyph_code(i) as u32,
            ));
        } else {
            assert(pre.live(k2));
            if !orig.atlas.live(k2) {
                let i0 = choose|i0: int|
                    0 <= i0 < i && k2 == spec_populate_key(
                        orig,
                        crate::programmatic::spec_glyph_code(i0) as u32,
                    );
                assert(0 <= i0 < i + 1 && k2 == spec_populate_key(
                    orig,
                    crate::programmatic::spec_glyph_code(i0) as u32,
                ));
            }
        }
    }
    assert forall|j: int| 0 <= j < ups_new.len() implies {
        let u = #[trigger] ups_new[j];
        &&& !orig.atlas.live(u.key)
        &&& post.live(u.key)
        &&& post.rect_of(u.key) == u.rect
    } by {
        if j < ups_old.len() {
            assert(ups_new[j] == ups_old[j]);
            assert(pre.live(ups_old[j].key));
        } else {
            assert(ups_new[j] == up);
            assert(!orig.atlas.live(up.key)) by {
                if orig.atlas.live(up.key) {
                    assert(pre.live(up.key));
                }
            }
        }
    }
    assert forall|i0: int|
        0 <= i0 < i + 1 && crate::programmatic::spec_programmatic_implemented(
            #[trigger] crate::programmatic::spec_glyph_code(i0) as u32,
        ) && orig.font_width <= orig.atlas.width && orig.font_height <= orig.atlas.height implies
        post.live(spec_populate_key(orig, crate::programmatic::spec_glyph_code(i0) as u32)) by {
        if i0 < i {
            assert(pre.live(
                spec_populate_key(orig, crate::programmatic::spec_glyph_code(i0) as u32),
            ));
        }
    }
    assert forall|i0: int|
        0 <= i0 < i + 1 && crate::programmatic::spec_programmatic_implemented(
            #[trigger] crate::programmatic::spec_glyph_code(i0) as u32,
        ) && orig.font_width <= orig.atlas.width && orig.font_height <= orig.atlas.height
            && !orig.atlas.live(
            spec_populate_key(orig, crate::programmatic::spec_glyph_code(i0) as u32),
        ) implies exists|j: int|
        0 <= j < ups_new.len() && (#[trigger] ups_new[j]).key == spec_populate_key(
            orig,
            crate::programmatic::spec_glyph_code(i0) as u32,
        ) by {
        if i0 < i {
            let j = choose|j: int|
                0 <= j < ups_old.len() && (#[trigger] ups_old[j]).key == spec_populate_key(
                    orig,
                    crate::programmatic::spec_glyph_code(i0) as u32,
                );
            assert(ups_new[j] == ups_old[j]);
        } else {
            assert(ups_new[ups_old.len() as int] == up);
        }
    }
    assert forall|j: int| 0 <= j < ups_new.len() implies exists|i0: int|
        0 <= i0 < i + 1 && (#[trigger] ups_new[j]).key.glyph as int
            == crate::programmatic::spec_glyph_code(i0) by {
        if j < ups_old.len() {
            assert(ups_new[j] == ups_old[j]);
            let i0 = choose|i0: int|
                0 <= i0 < i && (#[trigger] ups_old[j]).key.glyph as int
                    == crate::programmatic::spec_glyph_code(i0);
            assert(0 <= i0 < i + 1 && ups_new[j].key.glyph as int
                == crate::programmatic::spec_glyph_code(i0));
        } else {
            assert(ups_new[j] == up);
            assert(up.key.glyph as int == crate::programmatic::spec_glyph_code(i));
        }
    }
}

impl TerminalBackend {
    /// Pre-renders the whole programmatic glyph set into the atlas, so the
    /// first frame that uses box-drawing, block, braille or powerline
    /// characters pays no rasterization cost.
    ///
    /// Every upload carries an implemented programmatic code point's exact
    /// rendered pixels for its slot, and the uploads hold pairwise distinct
    /// keys. Unless the atlas had to evict while packing (`out.evicted`),
    /// afterwards every implemented code point whose cell-sized slot fits
    /// the texture is live under its pre-population key, every upload's
    /// slot is that key's live rectangle, every key that was not already
    /// cached got exactly one upload, and previously cached slots survive
    /// unchanged.
    #[verifier::rlimit(100)]
    pub fn populate_programmatic_glyphs(&mut self) -> (out: PopulateOutput)
        requires
            old(self).wf(),
        ensures
            final(self).wf(),
            *final(self) == (TerminalBackend { atlas: final(self).atlas, ..*old(self) }),
            final(self).atlas.width == old(self).atlas.width,
            final(self).atlas.height == old(self).atlas.height,
            out.uploads@.len() <= 432,
            forall|j: int|
                0 <= j < out.uploads@.len() ==> spec_populate_upload_exact(
                    *old(self),
                    #[trigger] out.uploads@[j],
                ),
            forall|j1: int, j2: int|
                0 <= j1 < j2 < out.uploads@.len() ==> (#[trigger] out.uploads@[j1]).key != (
                #[trigger] out.uploads@[j2]).key,
            !out.evicted ==> {
                &&& Atlas::keys_preserved(old(self).atlas, final(self).atlas)
                &&& spec_pop_uploads_live(*old(self), final(self).atlas, out.uploads@)
                &&& spec_pop_live_upto(*old(self), final(self).atlas, 432)
                &&& spec_pop_exists_upto(*old(self), out.uploads@, 432)
            },
    {
        let ghost orig = *old(self);
        let glyphs = crate::programmatic::all_programmatic_glyphs();
        let mut uploads: Vec<PendingUpload> = Vec::new();
        let mut evicted: bool = false;
        let w = self.font_width;
        let h = self.font_height;
        let mut i: usize = 0;
        while i < glyphs.len()
            invariant
                orig.wf(),
                glyphs@.len() == 432,
                forall|i0: int|
                    0 <= i0 < 432 ==> #[trigger] glyphs@[i0] as u32
                        == crate::programmatic::spec_glyph_code(i0),
                i <= 432,
                w == orig.font_width,
                h == orig.font_height,
                self.wf(),
                *self == (TerminalBackend { atlas: self.atlas, ..orig }),
                self.atlas.width == orig.atlas.width,
                self.atlas.height == orig.atlas.height,
                uploads@.len() <= i,
                forall|j: int|
                    0 <= j < uploads@.len() ==> spec_populate_upload_exact(
                        orig,
                        #[trigger] uploads@[j],
                    ),
                spec_pop_codes_upto(orig, uploads@, i as int),
                forall|j1: int, j2: int|
                    0 <= j1 < j2 < uploads@.len() ==> (#[trigger] uploads@[j1]).key != (
                    #[trigger] uploads@[j2]).key,
                !evicted ==> {
                    &&& Atlas::keys_preserved(orig.atlas, self.atlas)
                    &&& spec_pop_provenance(orig, self.atlas, i as int)
                    &&& spec_pop_uploads_live(orig, self.atlas, uploads@)
                    &&& spec_pop_live_upto(orig, self.atlas, i as int)
                    &&& spec_pop_exists_upto(orig, uploads@, i as int)
                },
            decreases glyphs.len() - i,
        {
            let c = glyphs[i];
            let key = Key { style: 0, glyph: c as u32, font: self.fallback_font };
            proof {
                assert(key == spec_populate_key(
                    orig,
                    crate::programmatic::spec_glyph_code(i as int) as u32,
                ));
            }
            let ghost atlas_pre = self.atlas;
            let rendered = crate::programmatic::render_programmatic_glyph(c, w, h);
            match rendered {
                None => {
                    proof {
                        // Not implemented (cell dimensions are always
                        // valid under `wf`), so the step changes nothing.
                        if !evicted {
                            lemma_pop_step_nochange(orig, self.atlas, uploads@, i as int);
                        }
                    }
                },
                Some(bitmap) => {
                    let len_before = self.atlas.len();
                    let slot_opt = self.atlas.get(key, w, h);
                    let len_after = self.atlas.len();
                    let mut step_evicted = false;
                    match &slot_opt {
                        Some(s0) => {
                            if !s0.cached && (len_after == 0 || len_after - 1 != len_before) {
                                step_evicted = true;
                                evicted = true;
                            }
                        },
                        None => {},
                    }
                    match slot_opt {
                        None => {
                            proof {
                                // The slot does not fit the texture.
                                if !evicted {
                                    lemma_pop_step_nochange(orig, self.atlas, uploads@, i as int);
                                }
                            }
                        },
                        Some(slot) => {
                            if slot.cached {
                                proof {
                                    // Cache hit: the key is already live.
                                    if !evicted {
                                        lemma_pop_step_nochange(
                                            orig,
                                            self.atlas,
                                            uploads@,
                                            i as int,
                                        );
                                    }
                                }
                            } else {
                                let ghost up_old = uploads@;
                                let ghost gb = bitmap;
                                let up = PendingUpload {
                                    key,
                                    rect: slot.rect,
                                    pixels: bitmap.pixels,
                                    is_color: false,
                                };
                                uploads.push(up);
                                proof {
                                    assert forall|x: int, y: int|
                                        0 <= x < up.rect.width && 0 <= y < up.rect.height implies
                                        up.pixels@[y * up.rect.width + x]
                                            == #[trigger] spec_populate_pixel(
                                            up.key.glyph,
                                            up.rect.width,
                                            up.rect.height,
                                            x,
                                            y,
                                        ) by {
                                        assert(up.pixels@[y * up.rect.width + x] == gb.spec_pixel(
                                            x,
                                            y,
                                        ));
                                    }
                                    assert(spec_populate_upload_exact(orig, up));
                                    assert(uploads@ == up_old.push(up));
                                    // Distinctness: every earlier upload is for a
                                    // strictly smaller code point.
                                    assert forall|j1: int, j2: int|
                                        0 <= j1 < j2 < uploads@.len() implies (
                                    #[trigger] uploads@[j1]).key != (
                                    #[trigger] uploads@[j2]).key by {
                                        if j2 < up_old.len() {
                                            assert(uploads@[j1] == up_old[j1]);
                                            assert(uploads@[j2] == up_old[j2]);
                                        } else {
                                            assert(uploads@[j2] == up);
                                            assert(uploads@[j1] == up_old[j1]);
                                            let i0 = choose|i0: int|
                                                0 <= i0 < i && (#[trigger] up_old[j1]).key.glyph as int
                                                    == crate::programmatic::spec_glyph_code(i0);
                                            crate::programmatic::lemma_glyph_code_increasing(
                                                i0,
                                                i as int,
                                            );
                                        }
                                    }
                                    if !evicted {
                                        assert(Atlas::keys_preserved(atlas_pre, self.atlas));
                                        lemma_pop_step_miss(
                                            orig,
                                            atlas_pre,
                                            self.atlas,
                                            up_old,
                                            uploads@,
                                            up,
                                            i as int,
                                        );
                                    } else {
                                        assert forall|j: int|
                                            0 <= j < uploads@.len() implies exists|i0: int|
                                            0 <= i0 < i + 1 && (#[trigger] uploads@[j]).key.glyph as int
                                                == crate::programmatic::spec_glyph_code(i0) by {
                                            if j < up_old.len() {
                                                assert(uploads@[j] == up_old[j]);
                                                let i0 = choose|i0: int|
                                                    0 <= i0 < i && (#[trigger] up_old[j]).key.glyph as int
                                                        == crate::programmatic::spec_glyph_code(i0);
                                                assert(0 <= i0 < i + 1 && uploads@[j].key.glyph as int
                                                    == crate::programmatic::spec_glyph_code(i0));
                                            } else {
                                                assert(uploads@[j] == up);
                                                assert(0 <= i < i + 1 && uploads@[j].key.glyph as int
                                                    == crate::programmatic::spec_glyph_code(i as int));
                                            }
                                        }
                                    }
                                }
                            }
                        },
                    }
                },
            }
            i = i + 1;
        }
        PopulateOutput { uploads, evicted }
    }
}

/// Builder for `TerminalBackend`. Font metrics (cell size in pixels and
/// the fallback font identity used for programmatic glyphs) come from the
/// caller's font collaborator.
pub struct TerminalBuilder {
    pub cols: u16,
    pub rows: u16,
    pub reset_fg: Rgb,
    pub reset_bg: Rgb,
    pub viewport: Viewport,
    pub font_width: u32,
    pub font_height: u32,
    pub fallback_font: u32,
}

impl TerminalBuilder {
    /// A builder with an 80 x 24 grid, white on black.
    pub fn new(font_width: u32, font_height: u32, fallback_font: u32) -> (r: TerminalBuilder)
        ensures
            r.cols == 80 && r.rows == 24,
            r.reset_fg == (Rgb { r: 255, g: 255, b: 255 }),
            r.reset_bg == (Rgb { r: 0, g: 0, b: 0 }),
            r.viewport == Viewport::Full,
            r.font_width == font_width,
            r.font_height == font_height,
            r.fallback_font == fallback_font,
    {
        TerminalBuilder {
            cols: 80,
            rows: 24,
            reset_fg: Rgb { r: 255, g: 255, b: 255 },
            reset_bg: Rgb { r: 0, g: 0, b: 0 },
            viewport: Viewport::Full,
            font_width,
            font_height,
            fallback_font,
        }
    }

    /// Sets terminal dimensions (columns, rows).
    pub fn with_dimensions(self, cols: u16, rows: u16) -> (r: TerminalBuilder)
        ensures
            r == (TerminalBuilder { cols, rows, ..self }),
    {
        TerminalBuilder { cols, rows, ..self }
    }

    /// Sets the default foreground color.
    pub fn with_reset_fg(self, color: Rgb) -> (r: TerminalBuilder)
        ensures
            r == (TerminalBuilder { reset_fg: color, ..self }),
    {
        TerminalBuilder { reset_fg: color, ..self }
    }

    /// Sets the default background color.
    pub fn with_reset_bg(self, color: Rgb) -> (r: TerminalBuilder)
        ensures
            r == (TerminalBuilder { reset_bg: color, ..self }),
    {
        TerminalBuilder { reset_bg: color, ..self }
    }

    /// Sets the viewport mode.
    pub fn with_viewport(self, viewport: Viewport) -> (r: TerminalBuilder)
        ensures
            r == (TerminalBuilder { viewport, ..self }),
    {
        TerminalBuilder { viewport, ..self }
    }

    /// Builds the backend: an empty grid, every row dirty, and an empty
    /// glyph cache. Zero or oversized dimensions are an invalid
    /// configuration and fail rather than being clamped.
    pub fn build(self) -> (r: Result<TerminalBackend, crate::Error>)
        ensures
            r is Err <==> (self.cols < 1 || self.rows < 1 || self.cols > MAX_GRID_DIM || self.rows
                > MAX_GRID_DIM || self.font_width < 1 || self.font_height < 1 || self.font_width
                > MAX_FONT_DIM || self.font_height > MAX_FONT_DIM),
            r matches Ok(t) ==> {
                &&& t.wf()
                &&& t.cols == self.cols
                &&& t.rows == self.rows
                &&& t.reset_fg == self.reset_fg
                &&& t.reset_bg == self.reset_bg
                &&& t.viewport == self.viewport
                &&& t.font_width == self.font_width
                &&& t.font_height == self.font_height
                &&& t.fallback_font == self.fallback_font
                &&& t.atlas.entries@.len() == 0
                &&& forall|i: int| 0 <= i < t.grid().len() ==> t.grid()[i] == spec_empty_cell()
                &&& forall|r0: int| 0 <= r0 < t.rows ==> t.dirty_rows@[r0] == true
            },
    {
        if self.cols < 1 || self.rows < 1 {
            return Err(crate::Error::ZeroGridDimensions);
        }
        if self.cols > MAX_GRID_DIM || self.rows > MAX_GRID_DIM {
            return Err(crate::Error::DimensionTooLarge);
        }
        if self.font_width < 1 || self.font_height < 1 {
            return Err(crate::Error::ZeroPixelDimensions);
        }
        if self.font_width > MAX_FONT_DIM || self.font_height > MAX_FONT_DIM {
            return Err(crate::Error::DimensionTooLarge);
        }
        let atlas = match Atlas::new(CACHE_WIDTH, CACHE_HEIGHT) {
            Ok(a) => a,
            Err(e) => {
                return Err(e);
            },
        };
        proof {
            crate::bitmap::lemma_mul_abs_bound(self.rows as int, self.cols as int, 4096, 4096);
            assert(self.rows as int * self.cols as int >= 0) by (nonlinear_arith)
                requires
                    self.rows >= 1,
                    self.cols >= 1,
            ;
        }
        let n = self.rows as usize * self.cols as usize;
        let mut cells: Vec<Cell> = Vec::new();
        let mut i: usize = 0;
        while i < n
            invariant
                i <= n,
                cells@.len() == i,
                forall|j: int| 0 <= j < i ==> (#[trigger] cells@[j])@ == spec_empty_cell(),
            decreases n - i,
        {
            cells.push(Cell::empty());
            i = i + 1;
        }
        let mut dirty_rows: Vec<bool> = Vec::new();
        let mut r: usize = 0;
        while r < self.rows as usize
            invariant
                r <= self.rows as usize,
                dirty_rows@.len() == r,
                forall|j: int| 0 <= j < r ==> dirty_rows@[j] == true,
            decreases self.rows as usize - r,
        {
            dirty_rows.push(true);
            r = r + 1;
        }
        Ok(
            TerminalBackend {
                cols: self.cols,
                rows: self.rows,
                cells,
                dirty_rows,
                cursor_x: 0,
                cursor_y: 0,
                viewport: self.viewport,
                atlas,
                reset_fg: self.reset_fg,
                reset_bg: self.reset_bg,
                font_width: self.font_width,
                font_height: self.font_height,
                fallback_font: self.fallback_font,
            },
        )
    }
}

} // verus!

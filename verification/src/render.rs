//! Screen geometry and pixel-buffer primitives of the renderer: selections,
//! click targets, the content area and its cell grid, theme colours, and
//! filling and outlining rectangles in an RGBA frame buffer. Glyphs and
//! blending are done by the drawing code around this module.

use vstd::prelude::*;

use crate::color::color_rgb;
use crate::grid::Cell;
use crate::schema::{ColorsConfig, Padding};
use crate::theme::TabChrome;
use crate::triggers::LineDecoration;
use crate::text::{
    ascii_lower_seq, chars_of, contains_chars, contains_seq, lower_chars, opt_chars, owned,
};
use crate::triggers::{hex_color, parse_hex_color, Rgba};

verus! {

/// `(r1, c1)` comes no later than `(r2, c2)` in reading order.
pub open spec fn cell_le(r1: u16, c1: u16, r2: u16, c2: u16) -> bool {
    r1 < r2 || (r1 == r2 && c1 <= c2)
}

/// Inclusive cell selection in the active terminal pane (grid coords).
#[derive(Debug, Clone, Copy, PartialEq, Eq, Structural)]
pub struct Selection {
    pub start_col: u16,
    pub start_row: u16,
    pub end_col: u16,
    pub end_row: u16,
}

impl Selection {
    /// `(first_row, first_col, last_row, last_col)`: the two ends in reading
    /// order.
    pub open spec fn ordered(self) -> (u16, u16, u16, u16) {
        if cell_le(self.start_row, self.start_col, self.end_row, self.end_col) {
            (self.start_row, self.start_col, self.end_row, self.end_col)
        } else {
            (self.end_row, self.end_col, self.start_row, self.start_col)
        }
    }

    /// The cell at `(col, row)` lies between the two ends, in reading order.
    pub open spec fn covers(self, col: u16, row: u16) -> bool {
        let (r1, c1, r2, c2) = self.ordered();
        cell_le(r1, c1, row, col) && cell_le(row, col, r2, c2)
    }

    /// The ends in reading order: `(first_row, first_col, last_row, last_col)`.
    pub fn normalized(self) -> (r: (u16, u16, u16, u16))
        ensures
            r == self.ordered(),
    {
        if self.start_row < self.end_row || (self.start_row == self.end_row && self.start_col
            <= self.end_col) {
            (self.start_row, self.start_col, self.end_row, self.end_col)
        } else {
            (self.end_row, self.end_col, self.start_row, self.start_col)
        }
    }

    /// Whether the cell at `(col, row)` is selected.
    pub fn contains(&self, col: u16, row: u16) -> (b: bool)
        ensures
            b == self.covers(col, row),
    {
        let (r1, c1, r2, c2) = self.normalized();
        if row < r1 || row > r2 {
            return false;
        }
        if r1 == r2 {
            return col >= c1 && col <= c2;
        }
        if row == r1 {
            return col >= c1;
        }
        if row == r2 {
            return col <= c2;
        }
        true
    }
}

/// A selection covers the same cells whichever end it was started from.
pub proof fn lemma_selection_symmetric(s: Selection, col: u16, row: u16)
    ensures
        s.covers(col, row) == (Selection {
            start_col: s.end_col,
            start_row: s.end_row,
            end_col: s.start_col,
            end_row: s.start_row,
        }).covers(col, row),
{
}

/// Both ends of a selection are selected.
pub proof fn lemma_selection_ends(s: Selection)
    ensures
        s.covers(s.start_col, s.start_row),
        s.covers(s.end_col, s.end_row),
{
}

/// What a click on the tab bar hits.
#[derive(Debug, Clone, Copy, PartialEq, Eq, Structural)]
pub enum HitTarget {
    Tab(usize),
    NewTab,
}

/// A clickable rectangle.
#[derive(Debug, Clone, Copy)]
pub struct HitRect {
    pub x: u32,
    pub y: u32,
    pub w: u32,
    pub h: u32,
    pub target: HitTarget,
}

/// `(x, y)` lies in `r`.
pub open spec fn in_hit_rect(r: HitRect, x: u32, y: u32) -> bool {
    x >= r.x && y >= r.y && x < r.x + r.w && y < r.y + r.h
}

/// The target of the last region (the one drawn on top) containing `(x, y)`.
pub open spec fn topmost_hit(regions: Seq<HitRect>, x: u32, y: u32) -> Option<HitTarget>
    decreases regions.len(),
{
    if regions.len() == 0 {
        None
    } else if in_hit_rect(regions.last(), x, y) {
        Some(regions.last().target)
    } else {
        topmost_hit(regions.drop_last(), x, y)
    }
}

/// The clickable regions of the last frame, in drawing order.
pub struct HitRegions {
    regions: Vec<HitRect>,
}

impl View for HitRegions {
    type V = Seq<HitRect>;

    closed spec fn view(&self) -> Seq<HitRect> {
        self.regions@
    }
}

impl HitRegions {
    pub fn new() -> (h: Self)
        ensures
            h@ == Seq::<HitRect>::empty(),
    {
        HitRegions { regions: Vec::new() }
    }

    /// Forget all regions (a new frame starts).
    pub fn clear(&mut self)
        ensures
            final(self)@ == Seq::<HitRect>::empty(),
    {
        self.regions.clear();
    }

    /// Add a region on top of the others.
    pub fn push(&mut self, r: HitRect)
        ensures
            final(self)@ == old(self)@.push(r),
    {
        self.regions.push(r);
    }

    /// The target at window pixel `(x, y)`: that of the region drawn last
    /// among those containing it.
    pub fn hit_test(&self, x: u32, y: u32) -> (t: Option<HitTarget>)
        ensures
            t == topmost_hit(self@, x, y),
    {
        let mut i = self.regions.len();
        proof {
            assert(self@.take(i as int) == self@);
        }
        while i > 0
            invariant
                i <= self@.len(),
                topmost_hit(self@.take(i as int), x, y) == topmost_hit(self@, x, y),
            decreases i,
        {
            let r = self.regions[i - 1];
            proof {
                assert(self@.take(i as int).drop_last() == self@.take(i - 1));
                assert(self@.take(i as int).last() == r);
            }
            if x >= r.x && y >= r.y && (x as u64) < (r.x as u64) + (r.w as u64) && (y as u64) < (
            r.y as u64) + (r.h as u64) {
                return Some(r.target);
            }
            i = i - 1;
        }
        None
    }
}

/// Where the cell grid of the active pane sits in the window, in pixels.
#[derive(Debug, Clone, Copy, PartialEq, Eq, Structural)]
pub struct ContentLayout {
    pub x: u32,
    pub y: u32,
    pub w: u32,
    pub h: u32,
    pub cell_w: u32,
    pub cell_h: u32,
}

/// `a - b`, or 0 when `b` is larger.
pub open spec fn sat_sub(a: u32, b: int) -> u32 {
    if b <= a {
        (a - b) as u32
    } else {
        0
    }
}

/// The pane area `(x, y, w, h)` of a `width` x `height` window: below the
/// tab bar, inside the pane inset.
pub open spec fn pane_rect(width: u32, height: u32, tab_bar_h: u32, inset: Padding) -> (u32, u32, u32, u32) {
    (
        inset.left,
        (tab_bar_h + inset.top) as u32,
        sat_sub(width, inset.left + inset.right),
        sat_sub(height, tab_bar_h + inset.top + inset.bottom),
    )
}

/// The cell grid area: the pane area inside the window padding.
pub open spec fn grid_rect(width: u32, height: u32, tab_bar_h: u32, pad: Padding, inset: Padding) -> (u32, u32, u32, u32) {
    let (px, py, pw, ph) = pane_rect(width, height, tab_bar_h, inset);
    ((px + pad.left) as u32, (py + pad.top) as u32, sat_sub(pw, pad.left + pad.right), sat_sub(ph, pad.top + pad.bottom))
}

/// The sums of pixel offsets in a layout fit in `u32`.
pub open spec fn layout_fits(tab_bar_h: u32, pad: Padding, inset: Padding) -> bool {
    &&& tab_bar_h + inset.top + inset.bottom + pad.top + pad.bottom <= u32::MAX
    &&& inset.left + inset.right + pad.left + pad.right <= u32::MAX
}

/// The pane area `(x, y, w, h)` of a window.
pub fn pane_area(width: u32, height: u32, tab_bar_h: u32, inset: &Padding) -> (r: (u32, u32, u32, u32))
    requires
        tab_bar_h + inset.top + inset.bottom <= u32::MAX,
        inset.left + inset.right <= u32::MAX,
    ensures
        r == pane_rect(width, height, tab_bar_h, *inset),
{
    let x = inset.left;
    let y = tab_bar_h + inset.top;
    let w = width.saturating_sub(inset.left + inset.right);
    let h = height.saturating_sub(tab_bar_h + inset.top + inset.bottom);
    (x, y, w, h)
}

/// Which sides `(top, bottom, left, right)` of the focused pane at
/// `(x, y)`, `w` by `h`, get the focus outline: those inside the pane area
/// `area` rather than on its edge; the top also not when the pane sits
/// flush under the tab bar (no inset above the panes, a separator under the
/// bar, and the pane starting no lower than the bar's height).
pub fn focus_edges(
    x: u32,
    y: u32,
    w: u32,
    h: u32,
    area: (u32, u32, u32, u32),
    inset_top: u32,
    separator_height: u32,
    tab_bar_h: u32,
) -> (e: (bool, bool, bool, bool))
    ensures
        e.0 == (!(inset_top == 0 && separator_height > 0 && y <= tab_bar_h) && y > area.1),
        e.1 == (y + h < area.1 + area.3),
        e.2 == (x > area.0),
        e.3 == (x + w < area.0 + area.2),
{
    let (ax, ay, aw, ah) = area;
    let flush_under_tabs = inset_top == 0 && separator_height > 0 && y <= tab_bar_h;
    (
        !flush_under_tabs && y > ay,
        (y as u64) + (h as u64) < (ay as u64) + (ah as u64),
        x > ax,
        (x as u64) + (w as u64) < (ax as u64) + (aw as u64),
    )
}

/// The cell grid's place in a `width` x `height` window.
pub fn content_layout_for(
    width: u32,
    height: u32,
    tab_bar_h: u32,
    cell_w: u32,
    cell_h: u32,
    pad: &Padding,
    inset: &Padding,
) -> (l: ContentLayout)
    requires
        layout_fits(tab_bar_h, *pad, *inset),
    ensures
        (l.x, l.y, l.w, l.h) == grid_rect(width, height, tab_bar_h, *pad, *inset),
        l.cell_w == cell_w,
        l.cell_h == cell_h,
{
    let (px, py, pw, ph) = pane_area(width, height, tab_bar_h, inset);
    ContentLayout {
        x: px + pad.left,
        y: py + pad.top,
        w: pw.saturating_sub(pad.left + pad.right),
        h: ph.saturating_sub(pad.top + pad.bottom),
        cell_w,
        cell_h,
    }
}

/// The cell at window position `(x, y)`, if it lies in the grid area.
pub open spec fn cell_at_spec(l: ContentLayout, x: int, y: int) -> Option<(u16, u16)> {
    if l.cell_w == 0 || l.cell_h == 0 {
        None
    } else if x < l.x || y < l.y || x >= l.x + l.w || y >= l.y + l.h {
        None
    } else {
        Some((((x - l.x) / (l.cell_w as int)) as u16, ((y - l.y) / (l.cell_h as int)) as u16))
    }
}

impl ContentLayout {
    /// The grid cell `(col, row)` at window pixel `(x, y)`, if inside.
    pub fn cell_at(&self, x: i64, y: i64) -> (c: Option<(u16, u16)>)
        requires
            self.x + self.w <= u32::MAX,
            self.y + self.h <= u32::MAX,
        ensures
            c == cell_at_spec(*self, x as int, y as int),
    {
        if self.cell_w == 0 || self.cell_h == 0 {
            return None;
        }
        if x < self.x as i64 || y < self.y as i64 || x >= (self.x + self.w) as i64 || y >= (self.y
            + self.h) as i64 {
            return None;
        }
        let col = ((x - self.x as i64) / self.cell_w as i64) as u16;
        let row = ((y - self.y as i64) / self.cell_h as i64) as u16;
        Some((col, row))
    }
}

/// `v`, at least 1.
pub open spec fn at_least_one(v: int) -> int {
    if v < 1 {
        1
    } else {
        v
    }
}

/// How many cells of `cell_w` x `cell_h` fit in the grid area of a
/// `width` x `height` window; at least one of each.
pub open spec fn grid_size(width: u32, height: u32, tab_bar_h: u32, cell_w: u32, cell_h: u32, pad: Padding, inset: Padding) -> (u16, u16) {
    let avail_w = sat_sub(width, inset.left + inset.right + pad.left + pad.right);
    let avail_h = sat_sub(height, tab_bar_h + inset.top + inset.bottom + pad.top + pad.bottom);
    (
        at_least_one((avail_w as int) / at_least_one(cell_w as int)) as u16,
        at_least_one((avail_h as int) / at_least_one(cell_h as int)) as u16,
    )
}

/// Columns and rows of the terminal grid for a window size.
pub fn cols_rows_for_size(
    width: u32,
    height: u32,
    tab_bar_h: u32,
    cell_w: u32,
    cell_h: u32,
    pad: &Padding,
    inset: &Padding,
) -> (r: (u16, u16))
    requires
        layout_fits(tab_bar_h, *pad, *inset),
    ensures
        r == grid_size(width, height, tab_bar_h, cell_w, cell_h, *pad, *inset),
{
    let avail_w = width.saturating_sub(inset.left + inset.right + pad.left + pad.right);
    let avail_h = height.saturating_sub(
        tab_bar_h + inset.top + inset.bottom + pad.top + pad.bottom,
    );
    let cw = if cell_w < 1 {
        1
    } else {
        cell_w
    };
    let ch = if cell_h < 1 {
        1
    } else {
        cell_h
    };
    let qc = avail_w / cw;
    let qr = avail_h / ch;
    let cols = (if qc < 1 {
        1
    } else {
        qc
    }) as u16;
    let rows = (if qr < 1 {
        1
    } else {
        qr
    }) as u16;
    (cols, rows)
}

/// The colour of a theme entry, if it is `#RRGGBB` or `#RRGGBBAA`.
pub open spec fn rgb_of(s: Seq<char>) -> Option<[u8; 3]> {
    match hex_color(s) {
        Some(c) => Some([c.r, c.g, c.b]),
        None => None,
    }
}

/// The red, green and blue of a theme colour string.
pub fn parse_rgb(s: &str) -> (r: Option<[u8; 3]>)
    ensures
        r == rgb_of(s@),
{
    match parse_hex_color(s) {
        Some(c) => Some([c.r, c.g, c.b]),
        None => None,
    }
}

/// Entry `i` of a 16-colour palette taken from 8 normal and 8 bright
/// colours: missing or unreadable entries are black.
pub open spec fn palette_entry(ansi: Seq<Seq<char>>, brights: Seq<Seq<char>>, i: int) -> [u8; 3] {
    let (list, k) = if i < 8 {
        (ansi, i)
    } else {
        (brights, i - 8)
    };
    if k < list.len() {
        match rgb_of(list[k]) {
            Some(c) => c,
            None => [0u8, 0u8, 0u8],
        }
    } else {
        [0u8, 0u8, 0u8]
    }
}

/// The 16 ANSI colours of a theme.
pub fn parse_ansi_palette(colors: &ColorsConfig) -> (p: [[u8; 3]; 16])
    ensures
        forall|i: int| 0 <= i < 16 ==> #[trigger] p@[i] == palette_entry(colors@.ansi, colors@.brights, i),
{
    let mut out = [[0u8; 3]; 16];
    let mut i: usize = 0;
    while i < 16
        invariant
            i <= 16,
            forall|j: int| 0 <= j < i ==> #[trigger] out@[j] == palette_entry(colors@.ansi, colors@.brights, j),
        decreases 16 - i,
    {
        let (list, k) = if i < 8 {
            (&colors.ansi, i)
        } else {
            (&colors.brights, i - 8)
        };
        let c = if k < list.len() {
            match parse_rgb(list[k].as_str()) {
                Some(c) => c,
                None => [0u8, 0u8, 0u8],
            }
        } else {
            [0u8, 0u8, 0u8]
        };
        out[i] = c;
        i = i + 1;
    }
    out
}

/// The smaller of two values.
pub open spec fn min_u32(a: u32, b: int) -> u32 {
    if b < a {
        b as u32
    } else {
        a
    }
}

/// Byte `j` of a frame buffer of `len` bytes (four bytes per pixel, rows of
/// `width` pixels) belongs to a pixel in columns `[x1, x2)` and rows
/// `[y1, y2)` whose four bytes all lie in the buffer.
pub open spec fn in_fill(j: int, len: int, width: int, x1: int, x2: int, y1: int, y2: int) -> bool {
    let p = j / 4;
    &&& width > 0
    &&& 0 <= j < len
    &&& p * 4 + 3 < len
    &&& y1 <= p / width < y2
    &&& x1 <= p % width < x2
}

/// The value a fill gives byte `j`: the colour's red, green and blue, then
/// an opaque alpha.
pub open spec fn fill_byte(rgb: [u8; 3], j: int) -> u8 {
    if j % 4 < 3 {
        rgb[j % 4]
    } else {
        255
    }
}

/// `buf` with the pixels of the rectangle at `(x, y)` of size `w` x `h`,
/// clipped to the `width` x `height` frame, set to `rgb`.
pub open spec fn filled(buf: Seq<u8>, width: u32, height: u32, x: u32, y: u32, w: u32, h: u32, rgb: [u8; 3]) -> Seq<u8> {
    let x1 = min_u32(width, x as int);
    let y1 = min_u32(height, y as int);
    let x2 = min_u32(width, x + w);
    let y2 = min_u32(height, y + h);
    Seq::new(
        buf.len(),
        |j: int|
            if in_fill(j, buf.len() as int, width as int, x1 as int, x2 as int, y1 as int, y2 as int) {
                fill_byte(rgb, j)
            } else {
                buf[j]
            },
    )
}

/// The rectangle's coordinates and the byte offsets of its pixels fit the
/// integer types used to compute them.
pub open spec fn fill_fits(width: u32, height: u32, x: u32, y: u32, w: u32, h: u32) -> bool {
    let y2 = min_u32(height, y + h);
    &&& x + w <= u32::MAX
    &&& y + h <= u32::MAX
    &&& y2 == 0 || (y2 - 1) * width <= u32::MAX
    &&& y2 * width * 4 <= usize::MAX
}

proof fn lemma_pixel_byte(j: int, p: int)
    requires
        0 <= p,
        0 <= j,
    ensures
        (j / 4 == p) == (p * 4 <= j < p * 4 + 4),
        j / 4 == p ==> j % 4 == j - p * 4,
        j / 4 >= 0,
{
    vstd::arithmetic::div_mod::lemma_fundamental_div_mod(j, 4);
    if p * 4 <= j < p * 4 + 4 {
        vstd::arithmetic::div_mod::lemma_fundamental_div_mod_converse(j, 4, p, j - p * 4);
    }
}

proof fn lemma_row_col(p: int, width: int, r: int, c: int)
    requires
        width > 0,
        0 <= c < width,
        0 <= r,
        0 <= p,
    ensures
        (p == r * width + c) == (p / width == r && p % width == c),
{
    vstd::arithmetic::div_mod::lemma_fundamental_div_mod(p, width);
    vstd::arithmetic::mul::lemma_mul_is_commutative(width, r);
    if p == r * width + c {
        vstd::arithmetic::div_mod::lemma_fundamental_div_mod_converse(p, width, r, c);
    }
}

/// Paint the rectangle at `(x, y)` of size `w` x `h`, clipped to the frame,
/// with an opaque colour. Pixels whose bytes run past the buffer are left
/// alone.
pub fn fill_rect(pixels: &mut [u8], width: u32, height: u32, x: u32, y: u32, w: u32, h: u32, rgb: [u8; 3])
    requires
        fill_fits(width, height, x, y, w, h),
    ensures
        final(pixels)@ == filled(old(pixels)@, width, height, x, y, w, h, rgb),
{
    let x1 = if x < width {
        x
    } else {
        width
    };
    let y1 = if y < height {
        y
    } else {
        height
    };
    let x2 = if x + w < width {
        x + w
    } else {
        width
    };
    let y2 = if y + h < height {
        y + h
    } else {
        height
    };
    let len = pixels.len();
    let ghost orig = old(pixels)@;
    let mut py = y1;
    while py < y2
        invariant
            y1 <= py <= y2,
            x1 <= x2 <= width,
            y2 <= height,
            y2 == 0 || (y2 - 1) * width <= u32::MAX,
            y2 * width * 4 <= usize::MAX,
            len == pixels@.len(),
            orig.len() == len,
            forall|j: int|
                0 <= j < len ==> #[trigger] pixels@[j] == (if in_fill(
                    j,
                    len as int,
                    width as int,
                    x1 as int,
                    x2 as int,
                    y1 as int,
                    py as int,
                ) {
                    fill_byte(rgb, j)
                } else {
                    orig[j]
                }),
        decreases y2 - py,
    {
        proof {
            assert(py * width <= (y2 - 1) * width) by (nonlinear_arith)
                requires
                    py <= y2 - 1,
            ;
        }
        let row = (py * width) as usize;
        let mut px = x1;
        while px < x2
            invariant
                y1 <= py < y2,
                x1 <= px <= x2 <= width,
                row == py * width,
                y2 * width * 4 <= usize::MAX,
                len == pixels@.len(),
                orig.len() == len,
                forall|j: int|
                    0 <= j < len ==> #[trigger] pixels@[j] == (if in_fill(
                        j,
                        len as int,
                        width as int,
                        x1 as int,
                        x2 as int,
                        y1 as int,
                        py as int,
                    ) || in_fill(j, len as int, width as int, x1 as int, px as int, py as int, py + 1) {
                        fill_byte(rgb, j)
                    } else {
                        orig[j]
                    }),
            decreases x2 - px,
        {
            proof {
                assert((py * width + px) * 4 + 3 <= y2 * width * 4) by (nonlinear_arith)
                    requires
                        py + 1 <= y2,
                        px + 1 <= width,
                ;
            }
            let i = (row + px as usize) * 4;
            let ghost before = pixels@;
            if i + 3 < pixels.len() {
                pixels[i] = rgb[0];
                pixels[i + 1] = rgb[1];
                pixels[i + 2] = rgb[2];
                pixels[i + 3] = 255;
            }
            proof {
                let p0 = py * width + px;
                assert forall|j: int| 0 <= j < len implies #[trigger] pixels@[j] == (if in_fill(
                    j,
                    len as int,
                    width as int,
                    x1 as int,
                    x2 as int,
                    y1 as int,
                    py as int,
                ) || in_fill(j, len as int, width as int, x1 as int, px + 1, py as int, py + 1) {
                    fill_byte(rgb, j)
                } else {
                    orig[j]
                }) by {
                    lemma_pixel_byte(j, p0);
                    let p = j / 4;
                    lemma_row_col(p, width as int, py as int, px as int);
                    if j / 4 != p0 {
                        assert(pixels@[j] == before[j]);
                    }
                }
            }
            px = px + 1;
        }
        proof {
            assert forall|j: int| 0 <= j < len implies #[trigger] pixels@[j] == (if in_fill(
                j,
                len as int,
                width as int,
                x1 as int,
                x2 as int,
                y1 as int,
                py + 1,
            ) {
                fill_byte(rgb, j)
            } else {
                orig[j]
            }) by {
                assert(in_fill(j, len as int, width as int, x1 as int, x2 as int, y1 as int, py + 1) == (
                in_fill(j, len as int, width as int, x1 as int, x2 as int, y1 as int, py as int)
                    || in_fill(j, len as int, width as int, x1 as int, px as int, py as int, py + 1)));
            }
        }
        py = py + 1;
    }
    proof {
        assert(pixels@ =~= filled(orig, width, height, x, y, w, h, rgb));
    }
}

/// Paint the whole `width` x `height` frame with an opaque colour.
pub fn fill(pixels: &mut [u8], width: u32, height: u32, rgb: [u8; 3])
    requires
        fill_fits(width, height, 0, 0, width, height),
    ensures
        final(pixels)@ == filled(old(pixels)@, width, height, 0, 0, width, height, rgb),
{
    fill_rect(pixels, width, height, 0, 0, width, height, rgb);
}

/// `buf` after outlining the rectangle at `(x, y)` of size `w` x `h` with
/// lines `t` pixels thick on the chosen sides: top, bottom, left, right, in
/// that order.
pub open spec fn stroked(
    buf: Seq<u8>,
    width: u32,
    height: u32,
    x: u32,
    y: u32,
    w: u32,
    h: u32,
    rgb: [u8; 3],
    t: u32,
    top: bool,
    bottom: bool,
    left: bool,
    right: bool,
) -> Seq<u8> {
    let s1 = if top {
        filled(buf, width, height, x, y, w, t, rgb)
    } else {
        buf
    };
    let s2 = if bottom {
        filled(s1, width, height, x, (y + sat_sub(h, t as int)) as u32, w, t, rgb)
    } else {
        s1
    };
    let s3 = if left {
        filled(s2, width, height, x, y, t, h, rgb)
    } else {
        s2
    };
    if right {
        filled(s3, width, height, (x + sat_sub(w, t as int)) as u32, y, t, h, rgb)
    } else {
        s3
    }
}

/// The sides to be drawn fit the integer types used to draw them.
pub open spec fn stroke_fits(
    width: u32,
    height: u32,
    x: u32,
    y: u32,
    w: u32,
    h: u32,
    t: u32,
    top: bool,
    bottom: bool,
    left: bool,
    right: bool,
) -> bool {
    &&& top ==> fill_fits(width, height, x, y, w, t)
    &&& bottom ==> y + sat_sub(h, t as int) <= u32::MAX && fill_fits(
        width,
        height,
        x,
        (y + sat_sub(h, t as int)) as u32,
        w,
        t,
    )
    &&& left ==> fill_fits(width, height, x, y, t, h)
    &&& right ==> x + sat_sub(w, t as int) <= u32::MAX && fill_fits(
        width,
        height,
        (x + sat_sub(w, t as int)) as u32,
        y,
        t,
        h,
    )
}

/// Outline the chosen sides of a rectangle with lines `thickness` pixels
/// thick, inside the rectangle.
pub fn stroke_rect_sides(
    pixels: &mut [u8],
    width: u32,
    height: u32,
    x: u32,
    y: u32,
    w: u32,
    h: u32,
    rgb: [u8; 3],
    thickness: u32,
    top: bool,
    bottom: bool,
    left: bool,
    right: bool,
)
    requires
        stroke_fits(width, height, x, y, w, h, thickness, top, bottom, left, right),
    ensures
        final(pixels)@ == stroked(
            old(pixels)@,
            width,
            height,
            x,
            y,
            w,
            h,
            rgb,
            thickness,
            top,
            bottom,
            left,
            right,
        ),
{
    if top {
        fill_rect(pixels, width, height, x, y, w, thickness, rgb);
    }
    if bottom {
        fill_rect(pixels, width, height, x, y + h.saturating_sub(thickness), w, thickness, rgb);
    }
    if left {
        fill_rect(pixels, width, height, x, y, thickness, h, rgb);
    }
    if right {
        fill_rect(pixels, width, height, x + w.saturating_sub(thickness), y, thickness, h, rgb);
    }
}

/// Outline all four sides of a rectangle.
pub fn stroke_rect(
    pixels: &mut [u8],
    width: u32,
    height: u32,
    x: u32,
    y: u32,
    w: u32,
    h: u32,
    rgb: [u8; 3],
    thickness: u32,
)
    requires
        stroke_fits(width, height, x, y, w, h, thickness, true, true, true, true),
    ensures
        final(pixels)@ == stroked(
            old(pixels)@,
            width,
            height,
            x,
            y,
            w,
            h,
            rgb,
            thickness,
            true,
            true,
            true,
            true,
        ),
{
    stroke_rect_sides(pixels, width, height, x, y, w, h, rgb, thickness, true, true, true, true);
}

/// Filling a rectangle twice is the same as filling it once.
pub proof fn lemma_fill_idempotent(buf: Seq<u8>, width: u32, height: u32, x: u32, y: u32, w: u32, h: u32, rgb: [u8; 3])
    ensures
        filled(filled(buf, width, height, x, y, w, h, rgb), width, height, x, y, w, h, rgb) == filled(
            buf,
            width,
            height,
            x,
            y,
            w,
            h,
            rgb,
        ),
{
    assert(filled(filled(buf, width, height, x, y, w, h, rgb), width, height, x, y, w, h, rgb) =~= filled(
        buf,
        width,
        height,
        x,
        y,
        w,
        h,
        rgb,
    ));
}

/// A fill keeps the buffer's length and every byte outside the rectangle.
pub proof fn lemma_fill_outside(buf: Seq<u8>, width: u32, height: u32, x: u32, y: u32, w: u32, h: u32, rgb: [u8; 3], j: int)
    requires
        0 <= j < buf.len(),
        !in_fill(
            j,
            buf.len() as int,
            width as int,
            min_u32(width, x as int) as int,
            min_u32(width, x + w) as int,
            min_u32(height, y as int) as int,
            min_u32(height, y + h) as int,
        ),
    ensures
        filled(buf, width, height, x, y, w, h, rgb).len() == buf.len(),
        filled(buf, width, height, x, y, w, h, rgb)[j] == buf[j],
{
}

/// The final component of a path, lossily decoded (`Path::file_name`).
pub uninterp spec fn path_file_name(path: Seq<char>) -> Option<Seq<char>>;

/// The path without its final component, lossily decoded (`Path::parent`).
pub uninterp spec fn path_parent(path: Seq<char>) -> Option<Seq<char>>;

/// The extension of the final component (`Path::extension`), if any.
pub uninterp spec fn path_extension(path: Seq<char>) -> Option<Seq<char>>;

/// The text held, or the empty text.
pub open spec fn or_empty(o: Option<Seq<char>>) -> Seq<char> {
    match o {
        Some(s) => s,
        None => seq![],
    }
}

/// `Path::file_name` of `path`, lossily decoded.
#[verifier::external_body]
pub(crate) fn file_name_of(path: &str) -> (r: Option<String>)
    ensures
        match r {
            Some(n) => path_file_name(path@) == Some(n@),
            None => path_file_name(path@) is None,
        },
{
    std::path::Path::new(path).file_name().map(|s| s.to_string_lossy().into_owned())
}

/// `Path::parent` of `path`, lossily decoded.
#[verifier::external_body]
fn parent_of(path: &str) -> (r: Option<String>)
    ensures
        match r {
            Some(d) => path_parent(path@) == Some(d@),
            None => path_parent(path@) is None,
        },
{
    std::path::Path::new(path).parent().map(|p| p.to_string_lossy().into_owned())
}

/// `Path::extension` of `path`.
#[verifier::external_body]
fn extension_of(path: &str) -> (r: Option<String>)
    ensures
        match r {
            Some(e) => path_extension(path@) == Some(e@),
            None => path_extension(path@) is None,
        },
{
    std::path::Path::new(path).extension().and_then(|e| e.to_str()).map(|e| e.to_string())
}

/// A font file name (lower-cased) that names a monospace family.
pub open spec fn names_mono_family(n: Seq<char>) -> bool {
    ||| contains_seq(n, "mono"@)
    ||| contains_seq(n, "consolas"@)
    ||| contains_seq(n, "courier"@)
    ||| contains_seq(n, "sourcecode"@)
    ||| contains_seq(n, "firacode"@)
    ||| contains_seq(n, "jetbrains"@)
    ||| contains_seq(n, "hack"@)
    ||| contains_seq(n, "iosevka"@)
    ||| contains_seq(n, "inconsolata"@)
    ||| contains_seq(n, "cascadia"@)
    ||| contains_seq(n, "menlo"@)
    ||| contains_seq(n, "sfmono"@)
    ||| contains_seq(n, "adwaita"@)
}

/// Whether a font file, given by its file name, directory and extension,
/// may be used for the terminal grid: not a variable font, a monospace
/// family by name or by directory, and a TrueType or OpenType file. Case
/// is ignored (ASCII).
pub open spec fn safe_mono_font(name: Seq<char>, dir: Seq<char>, ext: Option<Seq<char>>) -> bool {
    let n = ascii_lower_seq(name);
    let d = ascii_lower_seq(dir);
    &&& !(contains_seq(n, "["@) || contains_seq(n, "variable"@) || contains_seq(n, "-vf"@))
    &&& (names_mono_family(n) || contains_seq(d, "mono"@) || contains_seq(d, "firacode"@)
        || contains_seq(d, "jetbrains"@))
    &&& ext matches Some(e) && (ascii_lower_seq(e) == "ttf"@ || ascii_lower_seq(e) == "otf"@)
}

/// `needle` occurs in `hay`.
fn has(hay: &[char], needle: &str) -> (b: bool)
    ensures
        b == contains_seq(hay@, needle@),
{
    let n = chars_of(needle);
    contains_chars(hay, n.as_slice())
}

/// `s` is exactly `lit`.
fn chars_equal(s: &[char], lit: &str) -> (b: bool)
    ensures
        b == (s@ == lit@),
{
    let t = chars_of(lit);
    if s.len() != t.len() {
        return false;
    }
    let mut i: usize = 0;
    while i < s.len()
        invariant
            t@ == lit@,
            s@.len() == t@.len(),
            i <= s@.len(),
            forall|k: int| 0 <= k < i ==> s@[k] == t@[k],
        decreases s@.len() - i,
    {
        if s[i] != t[i] {
            proof {
                assert(s@[i as int] != t@[i as int]);
            }
            return false;
        }
        i = i + 1;
    }
    proof {
        assert(s@ =~= t@);
    }
    true
}

/// [`safe_mono_font`] on a font file's name, directory and extension.
pub fn is_safe_mono_font_name(name: &str, dir: &str, ext: Option<&str>) -> (b: bool)
    ensures
        b == safe_mono_font(
            name@,
            dir@,
            match ext {
                Some(e) => Some(e@),
                None => None,
            },
        ),
{
    let n = lower_chars(chars_of(name).as_slice());
    let n = n.as_slice();
    // Variable-font file names like NotoSans[wght].ttf are poison for terminals.
    if has(n, "[") || has(n, "variable") || has(n, "-vf") {
        return false;
    }
    // Reject obvious UI/sans families unless they claim mono.
    let is_mono = has(n, "mono") || has(n, "consolas") || has(n, "courier") || has(n, "sourcecode")
        || has(n, "firacode") || has(n, "jetbrains") || has(n, "hack") || has(n, "iosevka") || has(
        n,
        "inconsolata",
    ) || has(n, "cascadia") || has(n, "menlo") || has(n, "sfmono") || has(n, "adwaita");
    if !is_mono {
        // Still allow if the file lives under a *mono* directory.
        let d = lower_chars(chars_of(dir).as_slice());
        let d = d.as_slice();
        if !(has(d, "mono") || has(d, "firacode") || has(d, "jetbrains")) {
            return false;
        }
    }
    match ext {
        Some(e) => {
            let el = lower_chars(chars_of(e).as_slice());
            chars_equal(el.as_slice(), "ttf") || chars_equal(el.as_slice(), "otf")
        },
        None => false,
    }
}

/// Whether the font file at `path` may be used for the terminal grid (see
/// [`safe_mono_font`]).
pub fn is_safe_mono_font_path(path: &str) -> (b: bool)
    ensures
        b == safe_mono_font(or_empty(path_file_name(path@)), or_empty(path_parent(path@)), path_extension(path@)),
{
    let name = match file_name_of(path) {
        Some(n) => n,
        None => String::new(),
    };
    let dir = match parent_of(path) {
        Some(d) => d,
        None => String::new(),
    };
    let ext = extension_of(path);
    match ext {
        Some(e) => is_safe_mono_font_name(name.as_str(), dir.as_str(), Some(e.as_str())),
        None => is_safe_mono_font_name(name.as_str(), dir.as_str(), None),
    }
}

/// [`safe_mono_font`] on the parts of a font file's path.
pub open spec fn safe_font_path(path: Seq<char>) -> bool {
    safe_mono_font(or_empty(path_file_name(path)), or_empty(path_parent(path)), path_extension(path))
}

/// `s` without the characters that occur in `drop`.
pub open spec fn without_chars(s: Seq<char>, drop: Seq<char>) -> Seq<char>
    decreases s.len(),
{
    if s.len() == 0 {
        s
    } else {
        let rest = without_chars(s.drop_last(), drop);
        if drop.contains(s.last()) {
            rest
        } else {
            rest.push(s.last())
        }
    }
}

/// What a font file's name is matched by: its file name lower-cased
/// (ASCII), without `-` and spaces.
pub open spec fn font_file_key(path: Seq<char>) -> Seq<char> {
    without_chars(ascii_lower_seq(or_empty(path_file_name(path))), seq!['-', ' '])
}

/// What a preferred family is matched by: lower-cased (ASCII), without
/// spaces.
pub open spec fn family_key(family: Seq<char>) -> Seq<char> {
    without_chars(ascii_lower_seq(family), seq![' '])
}

/// The font files `paths` in order, except that each one whose name holds
/// the (non-empty) family key `key` is moved to the front as it comes: the
/// last such file ends up first.
pub open spec fn bubble_fonts(paths: Seq<Seq<char>>, key: Seq<char>) -> Seq<Seq<char>>
    decreases paths.len(),
{
    if paths.len() == 0 {
        seq![]
    } else {
        let rest = bubble_fonts(paths.drop_last(), key);
        let p = paths.last();
        if key.len() > 0 && contains_seq(font_file_key(p), key) {
            seq![p] + rest
        } else {
            rest.push(p)
        }
    }
}

/// The font files to try, in order, for the family `preferred`: the file
/// fontconfig matched for it, if it is a safe monospace font; then the
/// built-in files that exist, in order of preference, those naming the
/// family moved to the front; then the file fontconfig matched for
/// `monospace`, if it is a safe monospace font.
pub open spec fn font_order(
    preferred: Seq<char>,
    existing_builtins: Seq<Seq<char>>,
    fc_preferred: Option<Seq<char>>,
    fc_monospace: Option<Seq<char>>,
) -> Seq<Seq<char>> {
    let mid = bubble_fonts(existing_builtins, family_key(preferred));
    let head = match fc_preferred {
        Some(p) => if safe_font_path(p) {
            seq![p] + mid
        } else {
            mid
        },
        None => mid,
    };
    match fc_monospace {
        Some(p) => if safe_font_path(p) {
            head.push(p)
        } else {
            head
        },
        None => head,
    }
}

/// The monospace font files tried first, in order of preference.
pub open spec fn builtin_font_paths() -> Seq<Seq<char>> {
    seq![
        "/usr/share/fonts/adwaita-mono-fonts/AdwaitaMono-Regular.ttf"@,
        "/usr/share/fonts/liberation-mono-fonts/LiberationMono-Regular.ttf"@,
        "/usr/share/fonts/adobe-source-code-pro-fonts/SourceCodePro-Regular.otf"@,
        "/usr/share/fonts/fira-code/FiraCode-Regular.ttf"@,
        "/usr/share/fonts/dejavu/DejaVuSansMono.ttf"@,
        "/usr/share/fonts/truetype/dejavu/DejaVuSansMono.ttf"@,
        "/usr/share/fonts/TTF/JetBrainsMono-Regular.ttf"@,
        "/usr/share/fonts/jetbrains-mono-fonts/JetBrainsMono-Regular.ttf"@,
    ]
}

/// The monospace font files tried first, in order of preference.
pub fn builtin_font_files() -> (v: Vec<String>)
    ensures
        v.deep_view() == builtin_font_paths(),
{
    let v = vec![
        owned("/usr/share/fonts/adwaita-mono-fonts/AdwaitaMono-Regular.ttf"),
        owned("/usr/share/fonts/liberation-mono-fonts/LiberationMono-Regular.ttf"),
        owned("/usr/share/fonts/adobe-source-code-pro-fonts/SourceCodePro-Regular.otf"),
        owned("/usr/share/fonts/fira-code/FiraCode-Regular.ttf"),
        owned("/usr/share/fonts/dejavu/DejaVuSansMono.ttf"),
        owned("/usr/share/fonts/truetype/dejavu/DejaVuSansMono.ttf"),
        owned("/usr/share/fonts/TTF/JetBrainsMono-Regular.ttf"),
        owned("/usr/share/fonts/jetbrains-mono-fonts/JetBrainsMono-Regular.ttf"),
    ];
    proof {
        assert(v.deep_view() =~= builtin_font_paths());
    }
    v
}

/// Whether `c` is one of `set`.
fn char_in(c: char, set: &[char]) -> (b: bool)
    ensures
        b == set@.contains(c),
{
    let mut i: usize = 0;
    while i < set.len()
        invariant
            i <= set@.len(),
            forall|k: int| 0 <= k < i ==> set@[k] != c,
        decreases set@.len() - i,
    {
        if set[i] == c {
            proof {
                assert(set@[i as int] == c);
            }
            return true;
        }
        i = i + 1;
    }
    false
}

/// `s` without the characters of `drop`.
fn without_chars_exec(s: &[char], drop: &[char]) -> (r: Vec<char>)
    ensures
        r@ == without_chars(s@, drop@),
{
    let mut out: Vec<char> = Vec::new();
    let mut i: usize = 0;
    proof {
        assert(s@.take(0) =~= Seq::<char>::empty());
    }
    while i < s.len()
        invariant
            i <= s@.len(),
            out@ == without_chars(s@.take(i as int), drop@),
        decreases s@.len() - i,
    {
        proof {
            assert(s@.take(i + 1).drop_last() =~= s@.take(i as int));
            assert(s@.take(i + 1).last() == s@[i as int]);
        }
        if !char_in(s[i], drop) {
            out.push(s[i]);
        }
        i = i + 1;
    }
    proof {
        assert(s@.take(s@.len() as int) =~= s@);
    }
    out
}

/// [`font_file_key`] of `path`.
fn font_file_key_exec(path: &str) -> (k: Vec<char>)
    ensures
        k@ == font_file_key(path@),
{
    let name = match file_name_of(path) {
        Some(n) => n,
        None => String::new(),
    };
    let lower = lower_chars(chars_of(name.as_str()).as_slice());
    let drop = vec!['-', ' '];
    proof {
        assert(drop@ =~= seq!['-', ' ']);
    }
    without_chars_exec(lower.as_slice(), drop.as_slice())
}

/// The font files to try for the family `preferred`, in order (see
/// [`font_order`]), given the built-in files that exist, in order of
/// preference, and the files fontconfig matched for the family and for
/// `monospace`, where it matched an existing file.
pub fn font_candidates(
    preferred: &str,
    existing_builtins: &Vec<String>,
    fc_preferred: Option<String>,
    fc_monospace: Option<String>,
) -> (out: Vec<String>)
    ensures
        out.deep_view() == font_order(
            preferred@,
            existing_builtins.deep_view(),
            opt_chars(fc_preferred),
            opt_chars(fc_monospace),
        ),
{
    let lower = lower_chars(chars_of(preferred).as_slice());
    let space = vec![' '];
    proof {
        assert(space@ =~= seq![' ']);
    }
    let key = without_chars_exec(lower.as_slice(), space.as_slice());
    let ghost b = existing_builtins.deep_view();
    let mut out: Vec<String> = Vec::new();
    let mut i: usize = 0;
    proof {
        assert(b.take(0) =~= Seq::<Seq<char>>::empty());
        assert(out.deep_view() =~= Seq::<Seq<char>>::empty());
    }
    while i < existing_builtins.len()
        invariant
            i <= existing_builtins@.len(),
            b == existing_builtins.deep_view(),
            key@ == family_key(preferred@),
            out.deep_view() == bubble_fonts(b.take(i as int), key@),
        decreases existing_builtins@.len() - i,
    {
        let path = existing_builtins[i].clone();
        let name_key = font_file_key_exec(path.as_str());
        let ghost before = out.deep_view();
        proof {
            assert(b.take(i + 1).drop_last() =~= b.take(i as int));
            assert(b.take(i + 1).last() == path@);
        }
        if key.len() > 0 && contains_chars(name_key.as_slice(), key.as_slice()) {
            out.insert(0, path);
            proof {
                assert(out.deep_view() =~= seq![b[i as int]] + before);
            }
        } else {
            out.push(path);
            proof {
                assert(out.deep_view() =~= before.push(b[i as int]));
            }
        }
        i = i + 1;
    }
    proof {
        assert(b.take(b.len() as int) =~= b);
    }
    let ghost mid = out.deep_view();
    if let Some(p) = fc_preferred {
        if is_safe_mono_font_path(p.as_str()) {
            out.insert(0, p);
            proof {
                assert(out.deep_view() =~= seq![p@] + mid);
            }
        }
    }
    let ghost head = out.deep_view();
    if let Some(p) = fc_monospace {
        if is_safe_mono_font_path(p.as_str()) {
            out.push(p);
            proof {
                assert(out.deep_view() =~= head.push(p@));
            }
        }
    }
    out
}

/// The `0x00RRGGBB` word of a pixel.
pub open spec fn xrgb(r: u8, g: u8, b: u8) -> u32 {
    (r * 65536 + g * 256 + b) as u32
}

/// Pack RGBA pixels into `0x00RRGGBB` words, the window surface's format,
/// for as many pixels as both buffers hold; the other words are kept.
pub fn pack_xrgb(rgba: &[u8], out: &mut [u32])
    ensures
        final(out)@.len() == old(out)@.len(),
        forall|i: int|
            0 <= i < old(out)@.len() ==> #[trigger] final(out)@[i] == (if i < rgba@.len() / 4 {
                xrgb(rgba@[4 * i], rgba@[4 * i + 1], rgba@[4 * i + 2])
            } else {
                old(out)@[i]
            }),
{
    let len = rgba.len();
    let pixels = len / 4;
    let n = if out.len() < pixels {
        out.len()
    } else {
        pixels
    };
    let mut i: usize = 0;
    while i < n
        invariant
            n <= out@.len(),
            n <= rgba@.len() / 4,
            pixels == rgba@.len() / 4,
            len == rgba@.len(),
            i <= n,
            out@.len() == old(out)@.len(),
            forall|k: int|
                0 <= k < out@.len() ==> #[trigger] out@[k] == (if k < i {
                    xrgb(rgba@[4 * k], rgba@[4 * k + 1], rgba@[4 * k + 2])
                } else {
                    old(out)@[k]
                }),
        decreases n - i,
    {
        assert(4 * i + 4 <= len) by (nonlinear_arith)
            requires
                i < len / 4,
        ;
        let r = rgba[4 * i];
        let g = rgba[4 * i + 1];
        let b = rgba[4 * i + 2];
        let v = ((r as u32) << 16u32) | ((g as u32) << 8u32) | (b as u32);
        assert(v == xrgb(r, g, b)) by (bit_vector)
            requires
                v == ((r as u32) << 16u32) | ((g as u32) << 8u32) | (b as u32),
        ;
        out[i] = v;
        i = i + 1;
    }
}

/// Width of the tab chip at `x` whose label is `len` cells long: the label
/// plus the chip's padding, at least square, and leaving room for the `+`
/// button and the bar's right padding.
pub open spec fn chip_width(len: u32, cell_w: u32, tab_h: u32, c: TabChrome, width: u32, x: u32) -> int {
    let natural = len * cell_w + c.tab_padding.left + c.tab_padding.right;
    let wide = if natural < tab_h {
        tab_h as int
    } else {
        natural
    };
    let room = sat_sub(width, x + tab_h + c.gap + c.bar_padding.right);
    if room < wide {
        room as int
    } else {
        wide
    }
}

/// The chips from label `i` on, starting at `x`, then the `+` button.
pub open spec fn strip_from(lens: Seq<u32>, cell_w: u32, tab_h: u32, c: TabChrome, width: u32, x: u32, i: int) -> Seq<HitRect>
    decreases lens.len() - i,
{
    let y = c.bar_padding.top;
    if i >= lens.len() || i < 0 {
        seq![HitRect { x, y, w: tab_h, h: tab_h, target: HitTarget::NewTab }]
    } else {
        let tw = chip_width(lens[i], cell_w, tab_h, c, width, x);
        seq![HitRect { x, y, w: tw as u32, h: tab_h, target: HitTarget::Tab(i as usize) }] + strip_from(
            lens,
            cell_w,
            tab_h,
            c,
            width,
            (x + tw + c.gap) as u32,
            i + 1,
        )
    }
}

/// The arithmetic of laying out the chips from label `i` on stays in `u32`.
pub open spec fn strip_fits_from(lens: Seq<u32>, cell_w: u32, tab_h: u32, c: TabChrome, width: u32, x: u32, i: int) -> bool
    decreases lens.len() - i,
{
    if i >= lens.len() || i < 0 {
        true
    } else {
        let tw = chip_width(lens[i], cell_w, tab_h, c, width, x);
        &&& lens[i] * cell_w + c.tab_padding.left + c.tab_padding.right <= u32::MAX
        &&& x + tab_h + c.gap + c.bar_padding.right <= u32::MAX
        &&& x + tw + c.gap <= u32::MAX
        &&& strip_fits_from(lens, cell_w, tab_h, c, width, (x + tw + c.gap) as u32, i + 1)
    }
}

/// The tab bar's chips, one per label (given by its length in cells), left
/// to right from the bar's left padding, then the square `+` button.
pub open spec fn tab_strip_spec(lens: Seq<u32>, cell_w: u32, tab_h: u32, c: TabChrome, width: u32) -> Seq<HitRect> {
    strip_from(lens, cell_w, tab_h, c, width, c.bar_padding.left, 0)
}

/// One chip's width.
fn chip_width_exec(len: u32, cell_w: u32, tab_h: u32, c: &TabChrome, width: u32, x: u32) -> (w: u32)
    requires
        len * cell_w + c.tab_padding.left + c.tab_padding.right <= u32::MAX,
        x + tab_h + c.gap + c.bar_padding.right <= u32::MAX,
    ensures
        w == chip_width(len, cell_w, tab_h, *c, width, x),
{
    proof {
        assert(len * cell_w <= u32::MAX);
    }
    let natural = len * cell_w + c.tab_padding.left + c.tab_padding.right;
    let wide = if natural < tab_h {
        tab_h
    } else {
        natural
    };
    let room = width.saturating_sub(x + tab_h + c.gap + c.bar_padding.right);
    if room < wide {
        room
    } else {
        wide
    }
}

/// Whether the tab bar can be laid out for these labels (its arithmetic
/// stays in `u32`).
pub fn tab_strip_fits(lens: &[u32], cell_w: u32, tab_h: u32, c: &TabChrome, width: u32) -> (b: bool)
    ensures
        b == strip_fits_from(lens@, cell_w, tab_h, *c, width, c.bar_padding.left, 0),
{
    let mut x: u32 = c.bar_padding.left;
    let mut i: usize = 0;
    while i < lens.len()
        invariant
            i <= lens@.len(),
            strip_fits_from(lens@, cell_w, tab_h, *c, width, c.bar_padding.left, 0) == strip_fits_from(
                lens@,
                cell_w,
                tab_h,
                *c,
                width,
                x,
                i as int,
            ),
        decreases lens@.len() - i,
    {
        let len = lens[i];
        proof {
            assert((len as int) * (cell_w as int) <= 0xffff_fffe_0000_0001int) by (nonlinear_arith)
                requires
                    len <= 0xffff_ffffint,
                    cell_w <= 0xffff_ffffint,
            ;
        }
        if (len as u64) * (cell_w as u64) + (c.tab_padding.left as u64) + (c.tab_padding.right as u64)
            > u32::MAX as u64 {
            return false;
        }
        if (x as u64) + (tab_h as u64) + (c.gap as u64) + (c.bar_padding.right as u64) > u32::MAX as u64 {
            return false;
        }
        let tw = chip_width_exec(len, cell_w, tab_h, c, width, x);
        if (x as u64) + (tw as u64) + (c.gap as u64) > u32::MAX as u64 {
            return false;
        }
        x = x + tw + c.gap;
        i = i + 1;
    }
    true
}

/// Lay out the tab bar (see [`tab_strip_spec`]).
pub fn tab_strip(lens: &[u32], cell_w: u32, tab_h: u32, c: &TabChrome, width: u32) -> (r: Vec<HitRect>)
    requires
        strip_fits_from(lens@, cell_w, tab_h, *c, width, c.bar_padding.left, 0),
    ensures
        r@ == tab_strip_spec(lens@, cell_w, tab_h, *c, width),
{
    let mut out: Vec<HitRect> = Vec::new();
    let mut x: u32 = c.bar_padding.left;
    let mut i: usize = 0;
    while i < lens.len()
        invariant
            i <= lens@.len(),
            strip_fits_from(lens@, cell_w, tab_h, *c, width, x, i as int),
            out@ + strip_from(lens@, cell_w, tab_h, *c, width, x, i as int) == tab_strip_spec(
                lens@,
                cell_w,
                tab_h,
                *c,
                width,
            ),
        decreases lens@.len() - i,
    {
        let tw = chip_width_exec(lens[i], cell_w, tab_h, c, width, x);
        let r = HitRect { x, y: c.bar_padding.top, w: tw, h: tab_h, target: HitTarget::Tab(i) };
        proof {
            let rest = strip_from(lens@, cell_w, tab_h, *c, width, (x + tw + c.gap) as u32, i + 1);
            assert(strip_from(lens@, cell_w, tab_h, *c, width, x, i as int) == seq![r] + rest);
            assert(out@.push(r) + rest == out@ + (seq![r] + rest));
        }
        out.push(r);
        x = x + tw + c.gap;
        i = i + 1;
    }
    let plus = HitRect { x, y: c.bar_padding.top, w: tab_h, h: tab_h, target: HitTarget::NewTab };
    proof {
        assert(strip_from(lens@, cell_w, tab_h, *c, width, x, i as int) == seq![plus]);
    }
    out.push(plus);
    out
}

/// The colours a grid cell is drawn in, before inactive panes are dimmed:
/// its own colours (swapped when inverse), then those of the trigger
/// decorations covering its column, in order, and the selection colours
/// when it is selected.
pub open spec fn cell_colors_spec(
    cell: Cell,
    ansi: Seq<[u8; 3]>,
    fg: [u8; 3],
    bg: [u8; 3],
    decs: Seq<LineDecoration>,
    col: int,
    selected: bool,
    sel_fg: [u8; 3],
    sel_bg: [u8; 3],
) -> ([u8; 3], [u8; 3]) {
    let f0 = color_rgb(cell.fg, ansi, fg, bg);
    let b0 = color_rgb(cell.bg, ansi, fg, bg);
    let base = if cell.attr.inverse {
        (b0, f0)
    } else {
        (f0, b0)
    };
    if selected {
        (sel_fg, sel_bg)
    } else {
        decorated(base, decs, col)
    }
}

/// `colors` after the decorations that cover column `col`, applied in order.
pub open spec fn decorated(colors: ([u8; 3], [u8; 3]), decs: Seq<LineDecoration>, col: int) -> ([u8; 3], [u8; 3])
    decreases decs.len(),
{
    if decs.len() == 0 {
        colors
    } else {
        let before = decorated(colors, decs.drop_last(), col);
        let d = decs.last();
        if d.start <= col < d.end {
            (
                match d.style.foreground {
                    Some(c) => [c.r, c.g, c.b],
                    None => before.0,
                },
                match d.style.background {
                    Some(c) => [c.r, c.g, c.b],
                    None => before.1,
                },
            )
        } else {
            before
        }
    }
}

/// The colours of a grid cell at column `col` (see [`cell_colors_spec`]).
pub fn cell_colors(
    cell: &Cell,
    ansi: &[[u8; 3]; 16],
    fg: [u8; 3],
    bg: [u8; 3],
    decs: &[LineDecoration],
    col: usize,
    selected: bool,
    sel_fg: [u8; 3],
    sel_bg: [u8; 3],
) -> (r: ([u8; 3], [u8; 3]))
    ensures
        r == cell_colors_spec(*cell, ansi@, fg, bg, decs@, col as int, selected, sel_fg, sel_bg),
{
    let f0 = cell.fg.to_rgb(ansi, fg, bg);
    let b0 = cell.bg.to_rgb(ansi, fg, bg);
    let (mut f, mut b) = if cell.attr.inverse {
        (b0, f0)
    } else {
        (f0, b0)
    };
    let ghost base = (f, b);
    let mut k: usize = 0;
    proof {
        assert(decs@.take(0) == Seq::<LineDecoration>::empty());
    }
    while k < decs.len()
        invariant
            k <= decs@.len(),
            (f, b) == decorated(base, decs@.take(k as int), col as int),
        decreases decs@.len() - k,
    {
        let d = decs[k];
        proof {
            assert(decs@.take(k + 1).drop_last() == decs@.take(k as int));
            assert(decs@.take(k + 1).last() == d);
        }
        if d.start <= col && col < d.end {
            if let Some(c) = d.style.foreground {
                f = [c.r, c.g, c.b];
            }
            if let Some(c) = d.style.background {
                b = [c.r, c.g, c.b];
            }
        }
        k = k + 1;
    }
    proof {
        assert(decs@.take(decs@.len() as int) == decs@);
    }
    if selected {
        (sel_fg, sel_bg)
    } else {
        (f, b)
    }
}

proof fn lemma_strip_from_len(lens: Seq<u32>, cell_w: u32, tab_h: u32, c: TabChrome, width: u32, x: u32, i: int)
    requires
        0 <= i <= lens.len(),
    ensures
        strip_from(lens, cell_w, tab_h, c, width, x, i).len() == lens.len() - i + 1,
    decreases lens.len() - i,
{
    if i < lens.len() {
        let tw = chip_width(lens[i], cell_w, tab_h, c, width, x);
        lemma_strip_from_len(lens, cell_w, tab_h, c, width, (x + tw + c.gap) as u32, i + 1);
    }
}

proof fn lemma_strip_from_adjacent(
    lens: Seq<u32>,
    cell_w: u32,
    tab_h: u32,
    c: TabChrome,
    width: u32,
    x: u32,
    i: int,
    j: int,
)
    requires
        0 <= i <= j < lens.len(),
        strip_fits_from(lens, cell_w, tab_h, c, width, x, i),
    ensures
        ({
            let s = strip_from(lens, cell_w, tab_h, c, width, x, i);
            s[j - i + 1].x == s[j - i].x + s[j - i].w + c.gap
        }),
    decreases j - i,
{
    let tw = chip_width(lens[i], cell_w, tab_h, c, width, x);
    let x2 = (x + tw + c.gap) as u32;
    let rest = strip_from(lens, cell_w, tab_h, c, width, x2, i + 1);
    let s = strip_from(lens, cell_w, tab_h, c, width, x, i);
    assert(s == seq![HitRect { x, y: c.bar_padding.top, w: tw as u32, h: tab_h, target: HitTarget::Tab(i as usize) }] + rest);
    lemma_strip_from_len(lens, cell_w, tab_h, c, width, x2, i + 1);
    if j == i {
        assert(rest[0].x == x2);
    } else {
        lemma_strip_from_adjacent(lens, cell_w, tab_h, c, width, x2, i + 1, j);
        assert(s[j - i + 1] == rest[j - i]);
        assert(s[j - i] == rest[j - i - 1]);
    }
}

/// In the tab bar each chip, and then the `+` button, starts `gap` pixels
/// after the end of the chip before it: left to right, without overlap.
pub proof fn lemma_tab_strip_adjacent(lens: Seq<u32>, cell_w: u32, tab_h: u32, c: TabChrome, width: u32, j: int)
    requires
        0 <= j < lens.len(),
        strip_fits_from(lens, cell_w, tab_h, c, width, c.bar_padding.left, 0),
    ensures
        ({
            let s = tab_strip_spec(lens, cell_w, tab_h, c, width);
            s[j + 1].x == s[j].x + s[j].w + c.gap
        }),
{
    lemma_strip_from_adjacent(lens, cell_w, tab_h, c, width, c.bar_padding.left, 0, j);
}

} // verus!

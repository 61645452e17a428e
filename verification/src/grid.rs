//! Cell grid with scrollback history.

use vstd::prelude::*;

use crate::color::{Color, NamedColor};
use crate::text::{is_ws, string_of, trim_end, trim_end_chars};

verus! {

#[derive(Debug, Clone, Copy)]
pub struct CellAttr {
    pub bold: bool,
    pub underline: bool,
    pub inverse: bool,
}

/// Attributes of a freshly reset pen.
pub open spec fn default_attr() -> CellAttr {
    CellAttr { bold: false, underline: false, inverse: false }
}

impl Default for CellAttr {
    fn default() -> (a: Self)
        ensures
            a == default_attr(),
    {
        CellAttr { bold: false, underline: false, inverse: false }
    }
}

#[derive(Debug, Clone, Copy)]
pub struct Cell {
    pub ch: char,
    pub fg: Color,
    pub bg: Color,
    pub attr: CellAttr,
}

/// An empty cell: a space in the default colors.
pub open spec fn blank_cell() -> Cell {
    Cell {
        ch: ' ',
        fg: Color::Named(NamedColor::Foreground),
        bg: Color::Named(NamedColor::Background),
        attr: default_attr(),
    }
}

/// A line of `n` empty cells.
pub open spec fn blank_line(n: int) -> Seq<Cell> {
    Seq::new(n as nat, |i: int| blank_cell())
}

impl Default for Cell {
    fn default() -> (c: Self)
        ensures
            c == blank_cell(),
    {
        Cell {
            ch: ' ',
            fg: Color::Named(NamedColor::Foreground),
            bg: Color::Named(NamedColor::Background),
            attr: CellAttr::default(),
        }
    }
}

/// A vector of `n` empty cells.
pub fn blank_line_vec(n: usize) -> (v: Vec<Cell>)
    ensures
        v@ == blank_line(n as int),
{
    let mut v: Vec<Cell> = Vec::new();
    let mut i: usize = 0;
    while i < n
        invariant
            i <= n,
            v@ == blank_line(i as int),
        decreases n - i,
    {
        v.push(Cell::default());
        i = i + 1;
        proof {
            assert(v@ =~= blank_line(i as int));
        }
    }
    v
}

/// Most lines (history plus screen) the grid keeps.
pub open spec fn max_lines(limit: usize, rows: u16) -> int {
    if limit + rows > usize::MAX {
        usize::MAX as int
    } else {
        limit + rows
    }
}

/// Drop the oldest lines beyond the history limit.
pub open spec fn trim_history(lines: Seq<Seq<Cell>>, limit: usize, rows: u16) -> Seq<Seq<Cell>> {
    if lines.len() > max_lines(limit, rows) {
        lines.skip(lines.len() - max_lines(limit, rows))
    } else {
        lines
    }
}

/// A line brought to width `c`: cut, or padded with empty cells.
pub open spec fn resize_line(l: Seq<Cell>, c: int) -> Seq<Cell> {
    if c <= l.len() {
        l.take(c)
    } else {
        l + blank_line(c - l.len())
    }
}

pub open spec fn min_u16(a: u16, b: u16) -> u16 {
    if a <= b {
        a
    } else {
        b
    }
}

/// `a` moved on by `n`, stopping at `last`.
pub open spec fn step_to(a: u16, n: u16, last: u16) -> u16 {
    if a + n <= last {
        (a + n) as u16
    } else {
        last
    }
}

pub open spec fn max1(a: u16) -> u16 {
    if a < 1 {
        1
    } else {
        a
    }
}

/// Abstract state of a [`TerminalGrid`].
pub struct GridView {
    pub cols: u16,
    pub rows: u16,
    pub cursor_col: u16,
    pub cursor_row: u16,
    /// History followed by the screen; oldest first.
    pub lines: Seq<Seq<Cell>>,
    pub scrollback_limit: usize,
    pub fg: Color,
    pub bg: Color,
    pub attr: CellAttr,
    pub saved_col: u16,
    pub saved_row: u16,
    pub title: Seq<char>,
}

impl GridView {
    /// Shape invariant that every grid keeps.
    pub open spec fn wf(self) -> bool {
        &&& self.cols >= 1
        &&& self.rows >= 1
        &&& self.rows <= self.lines.len() <= max_lines(self.scrollback_limit, self.rows)
        &&& forall|i: int| 0 <= i < self.lines.len() ==> #[trigger] self.lines[i].len() == self.cols
        &&& self.cursor_row < self.rows
        &&& self.cursor_col <= self.cols
    }

    /// Index of the first screen line.
    pub open spec fn visible_start(self) -> int {
        self.lines.len() - self.rows
    }

    /// The screen cell at `(row, col)`.
    pub open spec fn cell(self, row: int, col: int) -> Cell {
        self.lines[self.visible_start() + row][col]
    }

    pub open spec fn set_cell(self, row: int, col: int, c: Cell) -> GridView {
        let i = self.visible_start() + row;
        GridView { lines: self.lines.update(i, self.lines[i].update(col, c)), ..self }
    }

    pub open spec fn with_cursor_col(self, col: u16) -> GridView {
        GridView { cursor_col: col, ..self }
    }

    pub open spec fn with_cursor_row(self, row: u16) -> GridView {
        GridView { cursor_row: row, ..self }
    }

    /// The grid with its cursor position saved.
    pub open spec fn cursor_saved(self) -> GridView {
        GridView { saved_col: self.cursor_col, saved_row: self.cursor_row, ..self }
    }

    /// The grid with the cursor back at the saved position, clamped to the
    /// screen.
    pub open spec fn cursor_restored(self) -> GridView {
        self.with_cursor_col(min_u16(self.saved_col, (self.cols - 1) as u16)).with_cursor_row(
            min_u16(self.saved_row, (self.rows - 1) as u16),
        )
    }

    /// Move down a row, scrolling a new empty line in at the bottom row.
    pub open spec fn line_feed(self) -> GridView {
        if self.cursor_row + 1 < self.rows {
            self.with_cursor_row((self.cursor_row + 1) as u16)
        } else {
            GridView {
                lines: trim_history(
                    self.lines.push(blank_line(self.cols as int)),
                    self.scrollback_limit,
                    self.rows,
                ),
                ..self
            }
        }
    }

    /// Column of the next tab stop (every 8 columns).
    pub open spec fn next_tab_stop(self) -> int {
        (self.cursor_col / 8 + 1) * 8
    }

    /// Wrap to the next line when the cursor is past the last column.
    pub open spec fn wrap_if_needed(self) -> GridView {
        if self.cursor_col >= self.cols {
            self.with_cursor_col(0).line_feed()
        } else {
            self
        }
    }

    /// Effect of writing one character.
    pub open spec fn put_char(self, c: char) -> GridView {
        if c == '\n' {
            self.line_feed()
        } else if c == '\r' {
            self.with_cursor_col(0)
        } else if c == '\t' {
            let col = if self.next_tab_stop() <= self.cols {
                self.next_tab_stop()
            } else {
                self.cols as int
            };
            if col >= self.cols {
                self.with_cursor_col(0).line_feed()
            } else {
                self.with_cursor_col(col as u16)
            }
        } else if c == '\x08' {
            if self.cursor_col > 0 {
                self.with_cursor_col((self.cursor_col - 1) as u16)
            } else {
                self
            }
        } else if c == '\x07' {
            self
        } else {
            let g = self.wrap_if_needed();
            g.set_cell(
                g.cursor_row as int,
                g.cursor_col as int,
                Cell { ch: c, fg: g.fg, bg: g.bg, attr: g.attr },
            ).with_cursor_col((g.cursor_col + 1) as u16)
        }
    }

    /// Replace every screen cell `(row, col)` with `p(row, col)` by an empty cell.
    pub open spec fn erase_where(self, p: spec_fn(int, int) -> bool) -> GridView {
        let vs = self.visible_start();
        GridView {
            lines: Seq::new(
                self.lines.len(),
                |i: int|
                    if i < vs {
                        self.lines[i]
                    } else {
                        Seq::new(
                            self.lines[i].len(),
                            |c: int|
                                if p(i - vs, c) {
                                    blank_cell()
                                } else {
                                    self.lines[i][c]
                                },
                        )
                    },
            ),
            ..self
        }
    }

    /// Cells cleared by `erase_in_display(mode)`.
    pub open spec fn display_erase_pred(self, mode: u16) -> spec_fn(int, int) -> bool {
        let cr = self.cursor_row as int;
        let cc = self.cursor_col as int;
        if mode == 0 {
            |r: int, c: int| (r == cr && c >= cc) || r > cr
        } else if mode == 1 {
            |r: int, c: int| r < cr || (r == cr && c <= cc)
        } else if mode == 2 || mode == 3 {
            |r: int, c: int| true
        } else {
            |r: int, c: int| false
        }
    }

    /// Effect of ED (erase in display).
    pub open spec fn erase_in_display(self, mode: u16) -> GridView {
        if mode <= 3 {
            self.erase_where(self.display_erase_pred(mode))
        } else {
            self
        }
    }

    /// Cells cleared by `erase_in_line(mode)`.
    pub open spec fn line_erase_pred(self, mode: u16) -> spec_fn(int, int) -> bool {
        let cr = self.cursor_row as int;
        let cc = self.cursor_col as int;
        let last = self.cols - 1;
        if mode == 0 {
            |r: int, c: int| r == cr && c >= cc
        } else if mode == 1 {
            |r: int, c: int| r == cr && c <= cc && c <= last
        } else if mode == 2 {
            |r: int, c: int| r == cr
        } else {
            |r: int, c: int| false
        }
    }

    /// Effect of EL (erase in line).
    pub open spec fn erase_in_line(self, mode: u16) -> GridView {
        if mode <= 2 {
            self.erase_where(self.line_erase_pred(mode))
        } else {
            self
        }
    }


    pub open spec fn pen(self) -> Pen {
        Pen { fg: self.fg, bg: self.bg, attr: self.attr }
    }

    pub open spec fn with_pen(self, p: Pen) -> GridView {
        GridView { fg: p.fg, bg: p.bg, attr: p.attr, ..self }
    }

    /// Effect of SGR with `params` (no parameters means reset).
    pub open spec fn sgr(self, params: Seq<i64>) -> GridView {
        if params.len() == 0 {
            self.with_pen(reset_pen())
        } else {
            self.with_pen(sgr_from(params, 0, self.pen()))
        }
    }

    /// The visible cells, row-major.
    pub open spec fn screen_cell(self, k: int) -> Cell {
        self.cell(k / self.cols as int, k % self.cols as int)
    }

    /// Effect of resizing the screen to `cols` x `rows` (each at least 1).
    pub open spec fn resize(self, cols: u16, rows: u16) -> GridView {
        let c = max1(cols);
        let r = max1(rows);
        let l1 = self.lines.map_values(|l: Seq<Cell>| resize_line(l, c as int));
        let l2 = if l1.len() < r {
            l1 + Seq::new((r - l1.len()) as nat, |i: int| blank_line(c as int))
        } else {
            l1
        };
        GridView {
            cols: c,
            rows: r,
            lines: trim_history(l2, self.scrollback_limit, r),
            cursor_col: min_u16(self.cursor_col, (c - 1) as u16),
            cursor_row: min_u16(self.cursor_row, (r - 1) as u16),
            ..self
        }
    }
}

/// Erasing cells `p` then cells `q` erases the cells of either.
pub proof fn lemma_erase_compose(g: GridView, p: spec_fn(int, int) -> bool, q: spec_fn(int, int) -> bool)
    ensures
        g.erase_where(p).erase_where(q) == g.erase_where(|r: int, c: int| p(r, c) || q(r, c)),
{
    let a = g.erase_where(p).erase_where(q);
    let b = g.erase_where(|r: int, c: int| p(r, c) || q(r, c));
    assert forall|i: int| 0 <= i < a.lines.len() implies a.lines[i] == b.lines[i] by {
        if i >= g.visible_start() {
            assert(a.lines[i] =~= b.lines[i]);
        }
    }
    assert(a.lines =~= b.lines);
}

/// Erasing depends only on which screen cells the predicate selects.
pub proof fn lemma_erase_congruent(g: GridView, p: spec_fn(int, int) -> bool, q: spec_fn(int, int) -> bool)
    requires
        g.wf(),
        forall|r: int, c: int| 0 <= r < g.rows && 0 <= c < g.cols ==> #[trigger] p(r, c) == q(r, c),
    ensures
        g.erase_where(p) == g.erase_where(q),
{
    let a = g.erase_where(p);
    let b = g.erase_where(q);
    assert forall|i: int| 0 <= i < a.lines.len() implies a.lines[i] == b.lines[i] by {
        if i >= g.visible_start() {
            assert(g.lines[i].len() == g.cols);
            assert(a.lines[i] =~= b.lines[i]);
        }
    }
    assert(a.lines =~= b.lines);
}

/// Erasing keeps the shape invariant.
pub proof fn lemma_erase_wf(g: GridView, p: spec_fn(int, int) -> bool)
    requires
        g.wf(),
    ensures
        g.erase_where(p).wf(),
{
    let a = g.erase_where(p);
    assert forall|i: int| 0 <= i < a.lines.len() implies #[trigger] a.lines[i].len() == a.cols by {
        assert(g.lines[i].len() == g.cols);
    }
}

/// An unchanged predicate-free erase is the identity.
pub proof fn lemma_erase_none(g: GridView)
    ensures
        g.erase_where(|r: int, c: int| false) == g,
{
    let a = g.erase_where(|r: int, c: int| false);
    assert forall|i: int| 0 <= i < a.lines.len() implies a.lines[i] == g.lines[i] by {
        if i >= g.visible_start() {
            assert(a.lines[i] =~= g.lines[i]);
        }
    }
    assert(a.lines =~= g.lines);
}

/// Resizing keeps the shape invariant.
pub proof fn lemma_resize_wf(g: GridView, cols: u16, rows: u16)
    requires
        g.wf(),
    ensures
        g.resize(cols, rows).wf(),
{
    let c = max1(cols);
    let r = max1(rows);
    let l1 = g.lines.map_values(|l: Seq<Cell>| resize_line(l, c as int));
    let l2 = if l1.len() < r {
        l1 + Seq::new((r - l1.len()) as nat, |i: int| blank_line(c as int))
    } else {
        l1
    };
    assert forall|i: int| 0 <= i < l2.len() implies #[trigger] l2[i].len() == c by {
        if i < l1.len() {
            assert(l2[i] == resize_line(g.lines[i], c as int));
        } else {
            assert(l2[i] == blank_line(c as int));
        }
    }
    let l3 = trim_history(l2, g.scrollback_limit, r);
    assert forall|i: int| 0 <= i < l3.len() implies #[trigger] l3[i].len() == c by {
        if l2.len() > max_lines(g.scrollback_limit, r) {
            assert(l3[i] == l2[i + (l2.len() - max_lines(g.scrollback_limit, r))]);
        }
    }
}

/// Palette color `idx` (0–7) in its normal or bright variant.
pub open spec fn named_from(idx: u8, bright: bool) -> NamedColor {
    if !bright {
        if idx == 0 {
            NamedColor::Black
        } else if idx == 1 {
            NamedColor::Red
        } else if idx == 2 {
            NamedColor::Green
        } else if idx == 3 {
            NamedColor::Yellow
        } else if idx == 4 {
            NamedColor::Blue
        } else if idx == 5 {
            NamedColor::Magenta
        } else if idx == 6 {
            NamedColor::Cyan
        } else if idx == 7 {
            NamedColor::White
        } else {
            NamedColor::Foreground
        }
    } else {
        if idx == 0 {
            NamedColor::BrightBlack
        } else if idx == 1 {
            NamedColor::BrightRed
        } else if idx == 2 {
            NamedColor::BrightGreen
        } else if idx == 3 {
            NamedColor::BrightYellow
        } else if idx == 4 {
            NamedColor::BrightBlue
        } else if idx == 5 {
            NamedColor::BrightMagenta
        } else if idx == 6 {
            NamedColor::BrightCyan
        } else if idx == 7 {
            NamedColor::BrightWhite
        } else {
            NamedColor::Foreground
        }
    }
}

/// `v` clamped to `0..=255`.
pub open spec fn clamp_u8(v: i64) -> u8 {
    if v < 0 {
        0
    } else if v > 255 {
        255
    } else {
        v as u8
    }
}

/// An extended color (`38;5;n` / `38;2;r;g;b` and the `48` forms) whose
/// selector sits at `i`: the color, if complete, and the index of its last
/// parameter.
pub open spec fn extended_color(params: Seq<i64>, i: int) -> (Option<Color>, int) {
    if i + 1 >= params.len() {
        (None, i)
    } else if params[i + 1] == 5 {
        if i + 2 >= params.len() {
            (None, i)
        } else {
            (Some(Color::Indexed(clamp_u8(params[i + 2]))), i + 2)
        }
    } else if params[i + 1] == 2 {
        if i + 4 >= params.len() {
            (None, i)
        } else {
            (
                Some(
                    Color::Rgb(
                        clamp_u8(params[i + 2]),
                        clamp_u8(params[i + 3]),
                        clamp_u8(params[i + 4]),
                    ),
                ),
                i + 4,
            )
        }
    } else {
        (None, i)
    }
}

/// The SGR pen: foreground, background and attributes.
pub struct Pen {
    pub fg: Color,
    pub bg: Color,
    pub attr: CellAttr,
}

/// The pen after SGR reset.
pub open spec fn reset_pen() -> Pen {
    Pen {
        fg: Color::Named(NamedColor::Foreground),
        bg: Color::Named(NamedColor::Background),
        attr: default_attr(),
    }
}

/// One SGR parameter at `i`: the new pen and the index of the last parameter consumed.
pub open spec fn sgr_step(params: Seq<i64>, i: int, p: Pen) -> (Pen, int) {
    let v = params[i];
    if v == 0 {
        (reset_pen(), i)
    } else if v == 1 {
        (Pen { attr: CellAttr { bold: true, ..p.attr }, ..p }, i)
    } else if v == 4 {
        (Pen { attr: CellAttr { underline: true, ..p.attr }, ..p }, i)
    } else if v == 7 {
        (Pen { attr: CellAttr { inverse: true, ..p.attr }, ..p }, i)
    } else if v == 22 {
        (Pen { attr: CellAttr { bold: false, ..p.attr }, ..p }, i)
    } else if v == 24 {
        (Pen { attr: CellAttr { underline: false, ..p.attr }, ..p }, i)
    } else if v == 27 {
        (Pen { attr: CellAttr { inverse: false, ..p.attr }, ..p }, i)
    } else if 30 <= v <= 37 {
        (Pen { fg: Color::Named(named_from((v - 30) as u8, false)), ..p }, i)
    } else if v == 39 {
        (Pen { fg: Color::Named(NamedColor::Foreground), ..p }, i)
    } else if 40 <= v <= 47 {
        (Pen { bg: Color::Named(named_from((v - 40) as u8, false)), ..p }, i)
    } else if v == 49 {
        (Pen { bg: Color::Named(NamedColor::Background), ..p }, i)
    } else if 90 <= v <= 97 {
        (Pen { fg: Color::Named(named_from((v - 90) as u8, true)), ..p }, i)
    } else if 100 <= v <= 107 {
        (Pen { bg: Color::Named(named_from((v - 100) as u8, true)), ..p }, i)
    } else if v == 38 {
        let (oc, j) = extended_color(params, i);
        match oc {
            Some(c) => (Pen { fg: c, ..p }, j),
            None => (p, j),
        }
    } else if v == 48 {
        let (oc, j) = extended_color(params, i);
        match oc {
            Some(c) => (Pen { bg: c, ..p }, j),
            None => (p, j),
        }
    } else {
        (p, i)
    }
}

/// The pen after applying the SGR parameters from index `i` on.
pub open spec fn sgr_from(params: Seq<i64>, i: int, p: Pen) -> Pen
    decreases params.len() - i,
    when 0 <= i
{
    if i >= params.len() {
        p
    } else {
        let (q, j) = sgr_step(params, i, p);
        if j >= i {
            sgr_from(params, j + 1, q)
        } else {
            q
        }
    }
}

/// Characters of a line of cells.
pub open spec fn line_chars(l: Seq<Cell>) -> Seq<char> {
    l.map_values(|c: Cell| c.ch)
}

pub proof fn lemma_line_feed_wf(g: GridView)
    requires
        g.wf(),
    ensures
        g.line_feed().wf(),
        g.line_feed().cols == g.cols,
        g.line_feed().rows == g.rows,
{
    if g.cursor_row + 1 >= g.rows {
        let l2 = g.lines.push(blank_line(g.cols as int));
        let l3 = trim_history(l2, g.scrollback_limit, g.rows);
        assert forall|i: int| 0 <= i < l3.len() implies #[trigger] l3[i].len() == g.cols by {
            if l2.len() > max_lines(g.scrollback_limit, g.rows) {
                assert(l3[i] == l2[i + (l2.len() - max_lines(g.scrollback_limit, g.rows))]);
            }
        }
    }
}

/// An operation on a grid that neither saves nor restores the cursor nor
/// resizes the grid.
pub enum GridOp {
    PutChar(char),
    LineFeed,
    CarriageReturn,
    Backspace,
    CursorUp(u16),
    CursorDown(u16),
    CursorForward(u16),
    CursorBack(u16),
    CursorGoto(u16, u16),
    EraseInDisplay(u16),
    EraseInLine(u16),
    Sgr(Vec<i64>),
}

/// The effect of `op` on `g`, as the operation of [`TerminalGrid`] of the
/// same name states it.
pub open spec fn apply_op(g: GridView, op: GridOp) -> GridView {
    match op {
        GridOp::PutChar(c) => g.put_char(c),
        GridOp::LineFeed => g.line_feed(),
        GridOp::CarriageReturn => g.with_cursor_col(0),
        GridOp::Backspace => if g.cursor_col > 0 {
            g.with_cursor_col((g.cursor_col - 1) as u16)
        } else {
            g
        },
        GridOp::CursorUp(n) => g.with_cursor_row(
            (if g.cursor_row >= max1(n) {
                g.cursor_row - max1(n)
            } else {
                0
            }) as u16,
        ),
        GridOp::CursorDown(n) => g.with_cursor_row(step_to(g.cursor_row, max1(n), (g.rows - 1) as u16)),
        GridOp::CursorForward(n) => g.with_cursor_col(step_to(g.cursor_col, max1(n), (g.cols - 1) as u16)),
        GridOp::CursorBack(n) => g.with_cursor_col(
            (if g.cursor_col >= max1(n) {
                g.cursor_col - max1(n)
            } else {
                0
            }) as u16,
        ),
        GridOp::CursorGoto(row, col) => g.with_cursor_row(
            min_u16(
                (if row >= 1 {
                    row - 1
                } else {
                    0
                }) as u16,
                (g.rows - 1) as u16,
            ),
        ).with_cursor_col(
            min_u16(
                (if col >= 1 {
                    col - 1
                } else {
                    0
                }) as u16,
                (g.cols - 1) as u16,
            ),
        ),
        GridOp::EraseInDisplay(mode) => g.erase_in_display(mode),
        GridOp::EraseInLine(mode) => g.erase_in_line(mode),
        GridOp::Sgr(params) => g.sgr(params@),
    }
}

/// The effect of the operations `ops`, first to last.
pub open spec fn apply_ops(g: GridView, ops: Seq<GridOp>) -> GridView
    decreases ops.len(),
{
    if ops.len() == 0 {
        g
    } else {
        apply_op(apply_ops(g, ops.drop_last()), ops.last())
    }
}

/// No operation but saving, restoring and resizing moves the saved cursor
/// or changes the grid's size.
pub proof fn lemma_ops_keep_saved_cursor(g: GridView, ops: Seq<GridOp>)
    ensures
        apply_ops(g, ops).saved_col == g.saved_col,
        apply_ops(g, ops).saved_row == g.saved_row,
        apply_ops(g, ops).cols == g.cols,
        apply_ops(g, ops).rows == g.rows,
    decreases ops.len(),
{
    if ops.len() > 0 {
        lemma_ops_keep_saved_cursor(g, ops.drop_last());
        let h = apply_ops(g, ops.drop_last());
        match ops.last() {
            GridOp::PutChar(c) => {
                assert(h.line_feed().saved_col == h.saved_col);
                assert(h.with_cursor_col(0).line_feed().saved_col == h.saved_col);
                assert(h.wrap_if_needed().saved_col == h.saved_col);
            },
            _ => {},
        }
    }
}

/// Saving the cursor and restoring it later, with any operations between
/// that neither save, restore nor resize, puts the cursor back where it was
/// saved (when it was on a column, not past the last one).
pub proof fn lemma_restore_after_save(g: GridView, ops: Seq<GridOp>)
    requires
        g.wf(),
        g.cursor_col < g.cols,
    ensures
        apply_ops(g.cursor_saved(), ops).cursor_restored().cursor_col == g.cursor_col,
        apply_ops(g.cursor_saved(), ops).cursor_restored().cursor_row == g.cursor_row,
{
    lemma_ops_keep_saved_cursor(g.cursor_saved(), ops);
}

pub proof fn lemma_put_char_wf(g: GridView, c: char)
    requires
        g.wf(),
    ensures
        g.put_char(c).wf(),
        g.put_char(c).cols == g.cols,
        g.put_char(c).rows == g.rows,
{
    lemma_line_feed_wf(g);
    lemma_line_feed_wf(g.with_cursor_col(0));
    let w = g.wrap_if_needed();
    assert(w.wf());
    assert(w.cursor_col < w.cols);
    let s = w.set_cell(
        w.cursor_row as int,
        w.cursor_col as int,
        Cell { ch: c, fg: w.fg, bg: w.bg, attr: w.attr },
    );
    assert forall|i: int| 0 <= i < s.lines.len() implies #[trigger] s.lines[i].len() == s.cols by {
        assert(w.lines[i].len() == w.cols);
    }
}

pub struct TerminalGrid {
    cols: u16,
    rows: u16,
    cursor_col: u16,
    cursor_row: u16,
    /// Scrollback + visible. Oldest at front.
    lines: Vec<Vec<Cell>>,
    scrollback_limit: usize,
    fg: Color,
    bg: Color,
    attr: CellAttr,
    /// Saved cursor for DECSC/DECRC
    saved_col: u16,
    saved_row: u16,
    title: String,
}

impl View for TerminalGrid {
    type V = GridView;

    closed spec fn view(&self) -> GridView {
        GridView {
            cols: self.cols,
            rows: self.rows,
            cursor_col: self.cursor_col,
            cursor_row: self.cursor_row,
            lines: self.lines@.map_values(|l: Vec<Cell>| l@),
            scrollback_limit: self.scrollback_limit,
            fg: self.fg,
            bg: self.bg,
            attr: self.attr,
            saved_col: self.saved_col,
            saved_row: self.saved_row,
            title: self.title@,
        }
    }
}

impl TerminalGrid {
    /// The grid's shape invariant.
    pub open spec fn wf(&self) -> bool {
        self@.wf()
    }

    pub fn new(cols: u16, rows: u16, scrollback_limit: usize) -> (g: Self)
        ensures
            g.wf(),
            g@.cols == max1(cols),
            g@.rows == max1(rows),
            g@.cursor_col == 0,
            g@.cursor_row == 0,
            g@.lines == Seq::new(max1(rows) as nat, |i: int| blank_line(max1(cols) as int)),
            g@.scrollback_limit == scrollback_limit,
            g@.fg == Color::Named(NamedColor::Foreground),
            g@.bg == Color::Named(NamedColor::Background),
            g@.attr == default_attr(),
            g@.saved_col == 0,
            g@.saved_row == 0,
            g@.title == Seq::<char>::empty(),
    {
        let cols = if cols < 1 {
            1
        } else {
            cols
        };
        let rows = if rows < 1 {
            1
        } else {
            rows
        };
        let mut lines: Vec<Vec<Cell>> = Vec::new();
        let mut i: u16 = 0;
        while i < rows
            invariant
                i <= rows,
                lines@.len() == i,
                lines@.map_values(|l: Vec<Cell>| l@) == Seq::new(
                    i as nat,
                    |k: int| blank_line(cols as int),
                ),
            decreases rows - i,
        {
            let line = blank_line_vec(cols as usize);
            let ghost before = lines@;
            lines.push(line);
            i = i + 1;
            proof {
                assert(lines@ == before.push(line));
                assert forall|k: int| 0 <= k < i implies #[trigger] lines@[k]@ == blank_line(
                    cols as int,
                ) by {
                    if k < i - 1 {
                        assert(lines@[k] == before[k]);
                        assert(before.map_values(|l: Vec<Cell>| l@)[k] == before[k]@);
                    }
                }
                assert(lines@.map_values(|l: Vec<Cell>| l@) =~= Seq::new(
                    i as nat,
                    |k: int| blank_line(cols as int),
                ));
            }
        }
        TerminalGrid {
            cols,
            rows,
            cursor_col: 0,
            cursor_row: 0,
            lines,
            scrollback_limit,
            fg: Color::Named(NamedColor::Foreground),
            bg: Color::Named(NamedColor::Background),
            attr: CellAttr::default(),
            saved_col: 0,
            saved_row: 0,
            title: String::new(),
        }
    }

    /// Overwrite one screen cell.
    fn write_cell(&mut self, row: u16, col: u16, cell: Cell)
        requires
            old(self).wf(),
            row < old(self)@.rows,
            col < old(self)@.cols,
        ensures
            final(self)@ == old(self)@.set_cell(row as int, col as int, cell),
    {
        let ghost g = self@;
        let idx = self.lines.len() - self.rows as usize + row as usize;
        proof {
            assert(self.lines@[idx as int]@ == g.lines[idx as int]);
        }
        self.lines[idx].set(col as usize, cell);
        proof {
            assert(self@.lines =~= g.set_cell(row as int, col as int, cell).lines);
        }
    }

    /// Drop history lines beyond the limit.
    fn trim_lines(&mut self)
        requires
            old(self).rows >= 1,
        ensures
            final(self)@ == (GridView {
                lines: trim_history(old(self)@.lines, old(self)@.scrollback_limit, old(self)@.rows),
                ..old(self)@
            }),
    {
        let ghost g = self@;
        let max = self.scrollback_limit.saturating_add(self.rows as usize);
        let len = self.lines.len();
        if len > max {
            let mut tail = self.lines.split_off(len - max);
            std::mem::swap(&mut self.lines, &mut tail);
            proof {
                assert(self@.lines =~= g.lines.skip(len - max));
            }
        }
    }

    /// Append an empty line below the last one.
    fn push_blank_line(&mut self)
        ensures
            final(self)@ == (GridView {
                lines: old(self)@.lines.push(blank_line(old(self)@.cols as int)),
                ..old(self)@
            }),
    {
        let ghost g = self@;
        let line = blank_line_vec(self.cols as usize);
        self.lines.push(line);
        proof {
            assert(self@.lines =~= g.lines.push(blank_line(g.cols as int)));
        }
    }

    pub fn line_feed(&mut self)
        requires
            old(self).wf(),
        ensures
            final(self).wf(),
            final(self)@ == old(self)@.line_feed(),
    {
        proof {
            lemma_line_feed_wf(self@);
        }
        if self.cursor_row + 1 < self.rows {
            self.cursor_row = self.cursor_row + 1;
            return ;
        }
        self.push_blank_line();
        self.trim_lines();
    }

    pub fn put_char(&mut self, c: char)
        requires
            old(self).wf(),
        ensures
            final(self).wf(),
            final(self)@ == old(self)@.put_char(c),
    {
        proof {
            lemma_put_char_wf(self@, c);
        }
        if c == '\n' {
            self.line_feed();
            return ;
        }
        if c == '\r' {
            self.cursor_col = 0;
            return ;
        }
        if c == '\t' {
            let next: u32 = ((self.cursor_col as u32 / 8) + 1) * 8;
            self.cursor_col = if next < self.cols as u32 {
                next as u16
            } else {
                self.cols
            };
            if self.cursor_col >= self.cols {
                self.cursor_col = 0;
                self.line_feed();
            }
            return ;
        }
        if c == '\x08' {
            if self.cursor_col > 0 {
                self.cursor_col = self.cursor_col - 1;
            }
            return ;
        }
        if c == '\x07' {
            return ;
        }
        if self.cursor_col >= self.cols {
            self.cursor_col = 0;
            self.line_feed();
        }
        let fg = self.fg;
        let bg = self.bg;
        let attr = self.attr;
        let row = self.cursor_row;
        let col = self.cursor_col;
        self.write_cell(row, col, Cell { ch: c, fg, bg, attr });
        self.cursor_col = self.cursor_col + 1;
    }


    /// Clear the cells `col_from <= col < col_to` of screen row `row`.
    fn clear_span(&mut self, row: u16, col_from: u16, col_to: u16)
        requires
            old(self).wf(),
            row < old(self)@.rows,
            col_to <= old(self)@.cols,
        ensures
            final(self).wf(),
            final(self)@ == old(self)@.erase_where(
                |r: int, c: int| r == row && col_from <= c < col_to,
            ),
    {
        let ghost g = self@;
        let mut col = col_from;
        proof {
            lemma_erase_none(g);
            lemma_erase_congruent(
                g,
                |r: int, c: int| false,
                |r: int, c: int| r == row && col_from <= c < col_from,
            );
        }
        while col < col_to
            invariant
                g.wf(),
                row < g.rows,
                col_to <= g.cols,
                col_from <= col,
                col <= col_to || col == col_from,
                self@ == g.erase_where(|r: int, c: int| r == row && col_from <= c < col),
            decreases col_to - col,
        {
            proof {
                lemma_erase_wf(g, |r: int, c: int| r == row && col_from <= c < col);
            }
            let ghost before = self@;
            self.write_cell(row, col, Cell::default());
            proof {
                let p = |r: int, c: int| r == row && col_from <= c < col;
                let q = |r: int, c: int| r == row && c == col;
                let pq = |r: int, c: int| r == row && col_from <= c < col + 1;
                assert(before.erase_where(q) == before.set_cell(row as int, col as int, blank_cell()))
                    by {
                    let a = before.erase_where(q);
                    let b = before.set_cell(row as int, col as int, blank_cell());
                    assert forall|i: int| 0 <= i < a.lines.len() implies a.lines[i] == b.lines[i] by {
                        if i >= before.visible_start() {
                            assert(a.lines[i] =~= b.lines[i]);
                        }
                    }
                    assert(a.lines =~= b.lines);
                }
                lemma_erase_compose(g, p, q);
                lemma_erase_congruent(g, |r: int, c: int| p(r, c) || q(r, c), pq);
            }
            col = col + 1;
        }
        proof {
            lemma_erase_wf(g, |r: int, c: int| r == row && col_from <= c < col_to);
            lemma_erase_congruent(
                g,
                |r: int, c: int| r == row && col_from <= c < col,
                |r: int, c: int| r == row && col_from <= c < col_to,
            );
        }
    }

    /// Clear every cell of the screen rows `row_from <= row < row_to`.
    fn clear_rows(&mut self, row_from: u16, row_to: u16)
        requires
            old(self).wf(),
            row_to <= old(self)@.rows,
        ensures
            final(self).wf(),
            final(self)@ == old(self)@.erase_where(|r: int, c: int| row_from <= r < row_to),
    {
        let ghost g = self@;
        let mut row = row_from;
        proof {
            lemma_erase_none(g);
            lemma_erase_congruent(
                g,
                |r: int, c: int| false,
                |r: int, c: int| row_from <= r < row_from,
            );
        }
        while row < row_to
            invariant
                g.wf(),
                row_to <= g.rows,
                row_from <= row,
                row <= row_to || row == row_from,
                self.wf(),
                self@ == g.erase_where(|r: int, c: int| row_from <= r < row),
                self@.cols == g.cols,
                self@.rows == g.rows,
            decreases row_to - row,
        {
            let cols = self.cols;
            self.clear_span(row, 0, cols);
            proof {
                let p = |r: int, c: int| row_from <= r < row;
                let q = |r: int, c: int| r == row && 0 <= c < cols;
                lemma_erase_compose(g, p, q);
                lemma_erase_congruent(
                    g,
                    |r: int, c: int| p(r, c) || q(r, c),
                    |r: int, c: int| row_from <= r < row + 1,
                );
                lemma_erase_wf(g, |r: int, c: int| row_from <= r < row + 1);
            }
            row = row + 1;
        }
        proof {
            lemma_erase_congruent(
                g,
                |r: int, c: int| row_from <= r < row,
                |r: int, c: int| row_from <= r < row_to,
            );
        }
    }

    pub fn erase_in_display(&mut self, mode: u16)
        requires
            old(self).wf(),
        ensures
            final(self).wf(),
            final(self)@ == old(self)@.erase_in_display(mode),
    {
        let ghost g = self@;
        let cr = self.cursor_row;
        let cc = self.cursor_col;
        let cols = self.cols;
        let rows = self.rows;
        if mode == 0 {
            self.clear_span(cr, cc, cols);
            self.clear_rows(cr + 1, rows);
            proof {
                let p = |r: int, c: int| r == cr && cc <= c < cols;
                let q = |r: int, c: int| cr + 1 <= r < rows;
                lemma_erase_compose(g, p, q);
                lemma_erase_congruent(g, |r: int, c: int| p(r, c) || q(r, c), g.display_erase_pred(mode));
            }
        } else if mode == 1 {
            // A cursor past the last column (a pending wrap) clears the whole row.
            let end = if cc < cols {
                cc + 1
            } else {
                cols
            };
            self.clear_rows(0, cr);
            self.clear_span(cr, 0, end);
            proof {
                let p = |r: int, c: int| 0 <= r < cr;
                let q = |r: int, c: int| r == cr && 0 <= c < end;
                lemma_erase_compose(g, p, q);
                lemma_erase_congruent(g, |r: int, c: int| p(r, c) || q(r, c), g.display_erase_pred(mode));
            }
        } else if mode == 2 || mode == 3 {
            self.clear_rows(0, rows);
            proof {
                lemma_erase_congruent(g, |r: int, c: int| 0 <= r < rows, g.display_erase_pred(mode));
            }
        }
    }

    pub fn erase_in_line(&mut self, mode: u16)
        requires
            old(self).wf(),
        ensures
            final(self).wf(),
            final(self)@ == old(self)@.erase_in_line(mode),
    {
        let ghost g = self@;
        let cr = self.cursor_row;
        let cc = self.cursor_col;
        let cols = self.cols;
        if mode == 0 {
            self.clear_span(cr, cc, cols);
            proof {
                lemma_erase_congruent(g, |r: int, c: int| r == cr && cc <= c < cols, g.line_erase_pred(mode));
            }
        } else if mode == 1 {
            let last = cols - 1;
            let end = if cc <= last {
                cc
            } else {
                last
            };
            self.clear_span(cr, 0, end + 1);
            proof {
                lemma_erase_congruent(g, |r: int, c: int| r == cr && 0 <= c < end + 1, g.line_erase_pred(mode));
            }
        } else if mode == 2 {
            self.clear_span(cr, 0, cols);
            proof {
                lemma_erase_congruent(g, |r: int, c: int| r == cr && 0 <= c < cols, g.line_erase_pred(mode));
            }
        }
    }

    /// Bring every stored line to width `cols`.
    fn resize_lines(&mut self, cols: u16)
        ensures
            final(self)@ == (GridView {
                lines: old(self)@.lines.map_values(|l: Seq<Cell>| resize_line(l, cols as int)),
                ..old(self)@
            }),
    {
        let ghost g = self@;
        let n = self.lines.len();
        let mut i: usize = 0;
        while i < n
            invariant
                n == self.lines@.len(),
                i <= n,
                self@ == (GridView { lines: self@.lines, ..g }),
                self@.lines.len() == g.lines.len(),
                forall|k: int|
                    0 <= k < i ==> #[trigger] self@.lines[k] == resize_line(g.lines[k], cols as int),
                forall|k: int| i <= k < n ==> #[trigger] self@.lines[k] == g.lines[k],
            decreases n - i,
        {
            proof {
                assert(self.lines@[i as int]@ == self@.lines[i as int]);
            }
            let ghost orig = self.lines@[i as int]@;
            let ghost pre = self.lines@;
            let ghost pre_view = self@.lines;
            assert forall|k: int| 0 <= k < n implies #[trigger] pre_view[k] == pre[k]@ by {}
            let mut line: Vec<Cell> = Vec::new();
            std::mem::swap(&mut line, &mut self.lines[i]);
            proof {
                assert(line@ == orig);
                assert(orig == g.lines[i as int]);
            }
            if (cols as usize) <= line.len() {
                line.truncate(cols as usize);
            } else {
                let mut pad = blank_line_vec(cols as usize - line.len());
                line.append(&mut pad);
            }
            proof {
                assert(line@ =~= resize_line(orig, cols as int));
            }
            let ghost mid = self.lines@;
            self.lines.set(i, line);
            proof {
                assert forall|k: int| 0 <= k < n && k != i implies self.lines@[k] == pre[k] by {
                    assert(self.lines@[k] == mid[k]);
                    assert(mid[k] == pre[k]);
                }
                assert forall|k: int| 0 <= k < n && k != i implies #[trigger] self@.lines[k] == pre_view[k] by {
                    assert(self@.lines[k] == self.lines@[k]@);
                }
                assert(self@.lines[i as int] == resize_line(g.lines[i as int], cols as int));
            }
            i = i + 1;
        }
        proof {
            assert(self@.lines =~= g.lines.map_values(|l: Seq<Cell>| resize_line(l, cols as int)));
        }
    }

    pub fn resize(&mut self, cols: u16, rows: u16)
        requires
            old(self).wf(),
        ensures
            final(self).wf(),
            final(self)@ == old(self)@.resize(cols, rows),
    {
        let ghost g = self@;
        proof {
            lemma_resize_wf(g, cols, rows);
        }
        let cols = if cols < 1 {
            1
        } else {
            cols
        };
        let rows = if rows < 1 {
            1
        } else {
            rows
        };
        self.cols = cols;
        self.rows = rows;
        self.resize_lines(cols);
        let ghost l1 = self@.lines;
        let visible_start = self.lines.len().saturating_sub(rows as usize);
        while self.lines.len() - visible_start < rows as usize
            invariant
                visible_start == (if l1.len() >= rows { l1.len() - rows } else { 0 }),
                self.lines@.len() >= l1.len(),
                self@.cols == cols,
                self@.rows == rows,
                self@ == (GridView { lines: self@.lines, ..self@ }),
                self@.lines == l1 + Seq::new(
                    (self@.lines.len() - l1.len()) as nat,
                    |i: int| blank_line(cols as int),
                ),
                self.lines@.len() <= visible_start + rows,
                self@.scrollback_limit == g.scrollback_limit,
                self@.cursor_col == g.cursor_col,
                self@.cursor_row == g.cursor_row,
                self@.fg == g.fg && self@.bg == g.bg && self@.attr == g.attr,
                self@.saved_col == g.saved_col && self@.saved_row == g.saved_row,
                self@.title == g.title,
            decreases visible_start + rows - self.lines@.len(),
        {
            let ghost before = self@.lines;
            self.push_blank_line();
            proof {
                assert(self@.lines =~= l1 + Seq::new(
                    (self@.lines.len() - l1.len()) as nat,
                    |i: int| blank_line(cols as int),
                ));
            }
        }
        proof {
            if l1.len() >= rows {
                assert(self@.lines =~= l1);
            }
        }
        self.trim_lines();
        let last_col = cols - 1;
        let last_row = rows - 1;
        self.cursor_col = if self.cursor_col <= last_col {
            self.cursor_col
        } else {
            last_col
        };
        self.cursor_row = if self.cursor_row <= last_row {
            self.cursor_row
        } else {
            last_row
        };
    }


    pub fn sgr(&mut self, params: &[i64])
        requires
            old(self).wf(),
        ensures
            final(self).wf(),
            final(self)@ == old(self)@.sgr(params@),
    {
        if params.len() == 0 {
            self.reset_sgr();
            return ;
        }
        let ghost p0 = self@.pen();
        let mut i: usize = 0;
        while i < params.len()
            invariant
                self.wf(),
                self@ == old(self)@.with_pen(self@.pen()),
                sgr_from(params@, 0, p0) == sgr_from(params@, i as int, self@.pen()),
                p0 == old(self)@.pen(),
            decreases params@.len() - i,
        {
            let ghost before = self@.pen();
            let ghost i0 = i as int;
            let v = params[i];
            if v == 0 {
                self.reset_sgr();
            } else if v == 1 {
                self.attr.bold = true;
            } else if v == 4 {
                self.attr.underline = true;
            } else if v == 7 {
                self.attr.inverse = true;
            } else if v == 22 {
                self.attr.bold = false;
            } else if v == 24 {
                self.attr.underline = false;
            } else if v == 27 {
                self.attr.inverse = false;
            } else if 30 <= v && v <= 37 {
                self.fg = Color::Named(named_from_index((v - 30) as u8, false));
            } else if v == 39 {
                self.fg = Color::Named(NamedColor::Foreground);
            } else if 40 <= v && v <= 47 {
                self.bg = Color::Named(named_from_index((v - 40) as u8, false));
            } else if v == 49 {
                self.bg = Color::Named(NamedColor::Background);
            } else if 90 <= v && v <= 97 {
                self.fg = Color::Named(named_from_index((v - 90) as u8, true));
            } else if 100 <= v && v <= 107 {
                self.bg = Color::Named(named_from_index((v - 100) as u8, true));
            } else if v == 38 {
                if let Some(c) = parse_extended_color(params, &mut i) {
                    self.fg = c;
                }
            } else if v == 48 {
                if let Some(c) = parse_extended_color(params, &mut i) {
                    self.bg = c;
                }
            }
            proof {
                let (q, j) = sgr_step(params@, i0, before);
                assert(self@.pen() == q);
                assert(j == i);
                assert(sgr_from(params@, i0, before) == sgr_from(params@, j + 1, q));
            }
            i = i + 1;
        }
    }

    fn reset_sgr(&mut self)
        requires
            old(self).wf(),
        ensures
            final(self).wf(),
            final(self)@ == old(self)@.with_pen(reset_pen()),
    {
        self.fg = Color::Named(NamedColor::Foreground);
        self.bg = Color::Named(NamedColor::Background);
        self.attr = CellAttr::default();
    }

    /// Copy of the visible screen.
    pub fn snapshot(&self) -> (snap: GridSnapshot)
        requires
            self.wf(),
        ensures
            snap.cols == self@.cols,
            snap.rows == self@.rows,
            snap.cursor_col == min_u16(self@.cursor_col, (self@.cols - 1) as u16),
            snap.cursor_row == self@.cursor_row,
            snap.cells@ == Seq::new(
                (self@.rows * self@.cols) as nat,
                |k: int| self@.screen_cell(k),
            ),
    {
        let ghost g = self@;
        let start = self.lines.len() - self.rows as usize;
        let cols = self.cols as usize;
        let rows = self.rows as usize;
        let mut cells: Vec<Cell> = Vec::new();
        let mut row: usize = 0;
        while row < rows
            invariant
                g == self@,
                g.wf(),
                start == g.visible_start(),
                cols == g.cols,
                rows == g.rows,
                row <= rows,
                cells@ == Seq::new((row * cols) as nat, |k: int| g.screen_cell(k)),
            decreases rows - row,
        {
            let mut col: usize = 0;
            proof {
                assert(g.lines[start + row].len() == cols);
            }
            while col < cols
                invariant
                    g == self@,
                    g.wf(),
                    start == g.visible_start(),
                    cols == g.cols,
                    rows == g.rows,
                    row < rows,
                    col <= cols,
                    self.lines@[start + row]@.len() == cols,
                    cells@ == Seq::new((row * cols + col) as nat, |k: int| g.screen_cell(k)),
                decreases cols - col,
            {
                proof {
                    assert(self.lines@[start + row]@ == g.lines[start + row]);
                    assert((row * cols + col) / (cols as int) == row as int && (row * cols + col)
                        % (cols as int) == col as int) by (nonlinear_arith)
                        requires
                            col < cols,
                            cols > 0,
                    ;
                    assert(row * cols + col < rows * cols) by (nonlinear_arith)
                        requires
                            col < cols,
                            row < rows,
                    ;
                }
                let c = self.lines[start + row][col];
                cells.push(c);
                proof {
                    assert(cells@ =~= Seq::new((row * cols + col + 1) as nat, |k: int| g.screen_cell(k)));
                }
                col = col + 1;
            }
            proof {
                assert((row + 1) * cols == row * cols + cols) by (nonlinear_arith);
            }
            row = row + 1;
        }
        GridSnapshot {
            cols: self.cols,
            rows: self.rows,
            cursor_col: if self.cursor_col <= self.cols - 1 {
                self.cursor_col
            } else {
                self.cols - 1
            },
            cursor_row: self.cursor_row,
            cells,
        }
    }

    /// Visible line strings (for triggers / AI context), trailing spaces removed.
    pub fn visible_lines(&self) -> (out: Vec<String>)
        requires
            self.wf(),
        ensures
            out@.len() == self@.rows,
            forall|r: int|
                0 <= r < self@.rows ==> #[trigger] out@[r]@ == trim_end(
                    line_chars(self@.lines[self@.visible_start() + r]),
                ),
    {
        let ghost g = self@;
        let start = self.lines.len() - self.rows as usize;
        let mut out: Vec<String> = Vec::new();
        let mut i = start;
        while i < self.lines.len()
            invariant
                g == self@,
                g.wf(),
                start == g.visible_start(),
                start <= i <= g.lines.len(),
                out@.len() == i - start,
                forall|r: int|
                    0 <= r < i - start ==> #[trigger] out@[r]@ == trim_end(
                        line_chars(g.lines[start + r]),
                    ),
            decreases g.lines.len() - i,
        {
            let line = &self.lines[i];
            let mut chars: Vec<char> = Vec::new();
            let mut k: usize = 0;
            while k < line.len()
                invariant
                    k <= line@.len(),
                    chars@ == line_chars(line@).take(k as int),
                decreases line@.len() - k,
            {
                chars.push(line[k].ch);
                proof {
                    assert(chars@ =~= line_chars(line@).take(k + 1));
                }
                k = k + 1;
            }
            proof {
                assert(chars@ =~= line_chars(line@));
                assert(line@ == g.lines[i as int]);
            }
            let trimmed = trim_end_chars(chars.as_slice());
            out.push(string_of(trimmed.as_slice()));
            i = i + 1;
        }
        out
    }

    pub fn carriage_return(&mut self)
        requires
            old(self).wf(),
        ensures
            final(self).wf(),
            final(self)@ == old(self)@.with_cursor_col(0),
    {
        self.cursor_col = 0;
    }

    pub fn backspace(&mut self)
        requires
            old(self).wf(),
        ensures
            final(self).wf(),
            final(self)@ == (if old(self)@.cursor_col > 0 {
                old(self)@.with_cursor_col((old(self)@.cursor_col - 1) as u16)
            } else {
                old(self)@
            }),
    {
        if self.cursor_col > 0 {
            self.cursor_col -= 1;
        }
    }

    /// Move up `max(n, 1)` rows, stopping at the top.
    pub fn cursor_up(&mut self, n: u16)
        requires
            old(self).wf(),
        ensures
            final(self).wf(),
            final(self)@ == old(self)@.with_cursor_row(
                (if old(self)@.cursor_row >= max1(n) {
                    old(self)@.cursor_row - max1(n)
                } else {
                    0
                }) as u16,
            ),
    {
        let n = if n < 1 {
            1
        } else {
            n
        };
        self.cursor_row = self.cursor_row.saturating_sub(n);
    }

    /// Move down `max(n, 1)` rows, stopping at the bottom.
    pub fn cursor_down(&mut self, n: u16)
        requires
            old(self).wf(),
        ensures
            final(self).wf(),
            final(self)@ == old(self)@.with_cursor_row(
                step_to(old(self)@.cursor_row, max1(n), (old(self)@.rows - 1) as u16),
            ),
    {
        let n = if n < 1 {
            1
        } else {
            n
        };
        let target: u32 = self.cursor_row as u32 + n as u32;
        let last = self.rows - 1;
        self.cursor_row = if target <= last as u32 {
            target as u16
        } else {
            last
        };
    }

    /// Move right `max(n, 1)` columns, stopping at the last column.
    pub fn cursor_forward(&mut self, n: u16)
        requires
            old(self).wf(),
        ensures
            final(self).wf(),
            final(self)@ == old(self)@.with_cursor_col(
                step_to(old(self)@.cursor_col, max1(n), (old(self)@.cols - 1) as u16),
            ),
    {
        let n = if n < 1 {
            1
        } else {
            n
        };
        let target: u32 = self.cursor_col as u32 + n as u32;
        let last = self.cols - 1;
        self.cursor_col = if target <= last as u32 {
            target as u16
        } else {
            last
        };
    }

    /// Move left `max(n, 1)` columns, stopping at the first column.
    pub fn cursor_back(&mut self, n: u16)
        requires
            old(self).wf(),
        ensures
            final(self).wf(),
            final(self)@ == old(self)@.with_cursor_col(
                (if old(self)@.cursor_col >= max1(n) {
                    old(self)@.cursor_col - max1(n)
                } else {
                    0
                }) as u16,
            ),
    {
        let n = if n < 1 {
            1
        } else {
            n
        };
        self.cursor_col = self.cursor_col.saturating_sub(n);
    }

    /// Move to the 1-based position `(row, col)`, clamped to the screen.
    pub fn cursor_goto(&mut self, row: u16, col: u16)
        requires
            old(self).wf(),
        ensures
            final(self).wf(),
            final(self)@ == old(self)@.with_cursor_row(
                min_u16(
                    (if row >= 1 {
                        row - 1
                    } else {
                        0
                    }) as u16,
                    (old(self)@.rows - 1) as u16,
                ),
            ).with_cursor_col(
                min_u16(
                    (if col >= 1 {
                        col - 1
                    } else {
                        0
                    }) as u16,
                    (old(self)@.cols - 1) as u16,
                ),
            ),
    {
        let r = row.saturating_sub(1);
        let c = col.saturating_sub(1);
        let last_row = self.rows - 1;
        let last_col = self.cols - 1;
        self.cursor_row = if r <= last_row {
            r
        } else {
            last_row
        };
        self.cursor_col = if c <= last_col {
            c
        } else {
            last_col
        };
    }

    pub fn save_cursor(&mut self)
        requires
            old(self).wf(),
        ensures
            final(self).wf(),
            final(self)@ == old(self)@.cursor_saved(),
    {
        self.saved_col = self.cursor_col;
        self.saved_row = self.cursor_row;
    }

    pub fn restore_cursor(&mut self)
        requires
            old(self).wf(),
        ensures
            final(self).wf(),
            final(self)@ == old(self)@.cursor_restored(),
    {
        let last_col = self.cols - 1;
        let last_row = self.rows - 1;
        self.cursor_col = if self.saved_col <= last_col {
            self.saved_col
        } else {
            last_col
        };
        self.cursor_row = if self.saved_row <= last_row {
            self.saved_row
        } else {
            last_row
        };
    }

    pub fn cols(&self) -> (c: u16)
        ensures
            c == self@.cols,
    {
        self.cols
    }

    pub fn rows(&self) -> (r: u16)
        ensures
            r == self@.rows,
    {
        self.rows
    }

    /// Cursor column (may equal `cols` while a wrap is pending).
    pub fn cursor_col(&self) -> (c: u16)
        ensures
            c == self@.cursor_col,
    {
        self.cursor_col
    }

    /// Cursor row on the screen.
    pub fn cursor_row(&self) -> (r: u16)
        ensures
            r == self@.cursor_row,
    {
        self.cursor_row
    }

    pub fn title(&self) -> (t: &str)
        ensures
            t@ == self@.title,
    {
        self.title.as_str()
    }

    pub fn set_title(&mut self, title: String)
        ensures
            final(self)@ == (GridView { title: title@, ..old(self)@ }),
    {
        self.title = title;
    }
}

/// Palette color `idx` (0–7) in its normal or bright variant.
pub fn named_from_index(idx: u8, bright: bool) -> (n: NamedColor)
    ensures
        n == named_from(idx, bright),
{
    match (idx, bright) {
        (0, false) => NamedColor::Black,
        (1, false) => NamedColor::Red,
        (2, false) => NamedColor::Green,
        (3, false) => NamedColor::Yellow,
        (4, false) => NamedColor::Blue,
        (5, false) => NamedColor::Magenta,
        (6, false) => NamedColor::Cyan,
        (7, false) => NamedColor::White,
        (0, true) => NamedColor::BrightBlack,
        (1, true) => NamedColor::BrightRed,
        (2, true) => NamedColor::BrightGreen,
        (3, true) => NamedColor::BrightYellow,
        (4, true) => NamedColor::BrightBlue,
        (5, true) => NamedColor::BrightMagenta,
        (6, true) => NamedColor::BrightCyan,
        (7, true) => NamedColor::BrightWhite,
        _ => NamedColor::Foreground,
    }
}

fn clamp_param(v: i64) -> (r: u8)
    ensures
        r == clamp_u8(v),
{
    if v < 0 {
        0
    } else if v > 255 {
        255
    } else {
        v as u8
    }
}

/// Parse the extended color whose selector (`38` / `48`) sits at `*i`,
/// advancing `*i` to its last parameter.
pub fn parse_extended_color(params: &[i64], i: &mut usize) -> (c: Option<Color>)
    requires
        *old(i) < params@.len(),
    ensures
        (c, *final(i) as int) == extended_color(params@, *old(i) as int),
{
    let n = params.len();
    if n - *i <= 1 {
        return None;
    }
    let sel = params[*i + 1];
    if sel == 5 {
        if n - *i <= 2 {
            return None;
        }
        let idx = clamp_param(params[*i + 2]);
        *i += 2;
        Some(Color::Indexed(idx))
    } else if sel == 2 {
        if n - *i <= 4 {
            return None;
        }
        let r = clamp_param(params[*i + 2]);
        let g = clamp_param(params[*i + 3]);
        let b = clamp_param(params[*i + 4]);
        *i += 4;
        Some(Color::Rgb(r, g, b))
    } else {
        None
    }
}

pub struct GridSnapshot {
    pub cols: u16,
    pub rows: u16,
    pub cursor_col: u16,
    pub cursor_row: u16,
    /// Visible rows, row-major.
    pub cells: Vec<Cell>,
}

/// `(row_a, col_a)` comes no later than `(row_b, col_b)` in reading order.
pub open spec fn pos_le(row_a: u16, col_a: u16, row_b: u16, col_b: u16) -> bool {
    row_a < row_b || (row_a == row_b && col_a <= col_b)
}

/// Characters of the cells `from..=to` of `row` that `cells` holds.
pub open spec fn span_chars(cells: Seq<Cell>, cols: int, row: int, from: int, to: int) -> Seq<char>
    decreases to + 1 - from,
{
    if from > to {
        Seq::empty()
    } else {
        let idx = row * cols + from;
        let head = if idx < cells.len() {
            seq![cells[idx].ch]
        } else {
            Seq::empty()
        };
        head + span_chars(cells, cols, row, from + 1, to)
    }
}

/// Text of rows `r..=r2` of the inclusive selection `(r1, c1)..(r2, c2)`:
/// each row's text without trailing whitespace, rows joined by `\n`,
/// stopping at the first row past the snapshot.
pub open spec fn range_text(
    cells: Seq<Cell>,
    cols: u16,
    rows: u16,
    r: int,
    r1: int,
    c1: int,
    r2: int,
    c2: int,
) -> Seq<char>
    decreases r2 + 1 - r,
{
    if r > r2 || r >= rows {
        Seq::empty()
    } else {
        let last = if cols >= 1 {
            cols - 1
        } else {
            0
        };
        let cs = if r == r1 {
            c1
        } else {
            0
        };
        let ce = if r == r2 {
            if c2 <= last {
                c2
            } else {
                last
            }
        } else {
            last
        };
        let sep = if r != r2 {
            seq!['\n']
        } else {
            Seq::empty()
        };
        trim_end(span_chars(cells, cols as int, r, cs, ce)) + sep + range_text(
            cells,
            cols,
            rows,
            r + 1,
            r1,
            c1,
            r2,
            c2,
        )
    }
}

impl GridSnapshot {
    /// Text of the inclusive cell range between the two positions.
    pub open spec fn text_of(self, start_col: u16, start_row: u16, end_col: u16, end_row: u16) -> Seq<char> {
        if pos_le(start_row, start_col, end_row, end_col) {
            range_text(self.cells@, self.cols, self.rows, start_row as int, start_row as int,
                start_col as int, end_row as int, end_col as int)
        } else {
            range_text(self.cells@, self.cols, self.rows, end_row as int, end_row as int,
                end_col as int, start_row as int, start_col as int)
        }
    }

    /// Extract selected text (inclusive cell range). Multi-line uses `\n`.
    pub fn text_range(&self, start_col: u16, start_row: u16, end_col: u16, end_row: u16) -> (s: String)
        ensures
            s@ == self.text_of(start_col, start_row, end_col, end_row),
    {
        let (r1, c1, r2, c2) = if start_row < end_row || (start_row == end_row && start_col
            <= end_col) {
            (start_row, start_col, end_row, end_col)
        } else {
            (end_row, end_col, start_row, start_col)
        };
        let ghost total = range_text(self.cells@, self.cols, self.rows, r1 as int, r1 as int,
            c1 as int, r2 as int, c2 as int);
        let last: u16 = if self.cols >= 1 {
            self.cols - 1
        } else {
            0
        };
        let mut out: Vec<char> = Vec::new();
        let mut row: u32 = r1 as u32;
        while row <= r2 as u32
            invariant
                r1 <= row <= r2 as int + 1,
                last == (if self.cols >= 1 { self.cols - 1 } else { 0 }),
                out@ + range_text(self.cells@, self.cols, self.rows, row as int, r1 as int,
                    c1 as int, r2 as int, c2 as int) == total,
            ensures
                out@ == total,
            decreases r2 as int + 1 - row,
        {
            if row >= self.rows as u32 {
                proof {
                    assert(out@ =~= total);
                }
                break;
            }
            let col_start: u32 = if row == r1 as u32 {
                c1 as u32
            } else {
                0
            };
            let col_end: u32 = if row == r2 as u32 {
                if c2 <= last {
                    c2 as u32
                } else {
                    last as u32
                }
            } else {
                last as u32
            };
            let mut line: Vec<char> = Vec::new();
            let mut col = col_start;
            let ghost span = span_chars(self.cells@, self.cols as int, row as int,
                col_start as int, col_end as int);
            while col <= col_end
                invariant
                    col_start <= col,
                    col <= col_end as int + 1 || col == col_start,
                    col_end <= u16::MAX,
                    row <= u16::MAX,
                    line@ + span_chars(self.cells@, self.cols as int, row as int, col as int,
                        col_end as int) == span,
                decreases col_end as int + 1 - col,
            {
                proof {
                    assert(row * self.cols + col <= 65535 * 65535 + 65535) by (nonlinear_arith)
                        requires
                            row <= 65535,
                            self.cols <= 65535,
                            col <= 65535,
                    ;
                }
                let idx = row as usize * self.cols as usize + col as usize;
                if idx < self.cells.len() {
                    line.push(self.cells[idx].ch);
                }
                proof {
                    assert(line@ + span_chars(self.cells@, self.cols as int, row as int,
                        col + 1, col_end as int) =~= span);
                }
                col = col + 1;
            }
            proof {
                assert(line@ =~= span);
            }
            let mut trimmed = trim_end_chars(line.as_slice());
            let ghost before = out@;
            out.append(&mut trimmed);
            if row != r2 as u32 {
                out.push('\n');
            }
            proof {
                assert(out@ + range_text(self.cells@, self.cols, self.rows, row + 1, r1 as int,
                    c1 as int, r2 as int, c2 as int) =~= before + range_text(self.cells@,
                    self.cols, self.rows, row as int, r1 as int, c1 as int, r2 as int, c2 as int));
            }
            row = row + 1;
        }
        string_of(out.as_slice())
    }
}

/// Restoring the cursor right after saving it leaves it where it was, unless
/// it stood past the last column (waiting to wrap): then it comes back to
/// the last column.
pub proof fn lemma_save_restore_cursor(g: GridView)
    requires
        g.wf(),
    ensures
        g.cursor_col < g.cols ==> g.cursor_saved().cursor_restored() == g.cursor_saved(),
        g.cursor_col == g.cols ==> g.cursor_saved().cursor_restored() == g.cursor_saved().with_cursor_col(
            (g.cols - 1) as u16,
        ),
{
}

/// The text of a cell range does not depend on which end it is given from.
pub proof fn lemma_text_of_symmetric(s: GridSnapshot, c1: u16, r1: u16, c2: u16, r2: u16)
    ensures
        s.text_of(c1, r1, c2, r2) == s.text_of(c2, r2, c1, r1),
{
}

/// No line of `t` (lines being separated by `\n`) ends in whitespace.
pub open spec fn no_line_ends_in_ws(t: Seq<char>) -> bool {
    forall|i: int|
        0 <= i < t.len() && t[i] != '\n' && (i + 1 == t.len() || t[i + 1] == '\n') ==> !is_ws(
            #[trigger] t[i],
        )
}

/// `s` holds no `\n`.
pub open spec fn no_newline(s: Seq<char>) -> bool {
    forall|i: int| 0 <= i < s.len() ==> #[trigger] s[i] != '\n'
}

/// Trimming keeps a prefix that is empty or ends in a non-space.
proof fn lemma_trim_end_prefix(s: Seq<char>)
    ensures
        trim_end(s).len() <= s.len(),
        trim_end(s) == s.take(trim_end(s).len() as int),
        trim_end(s).len() > 0 ==> !is_ws(trim_end(s).last()),
    decreases s.len(),
{
    if s.len() > 0 && is_ws(s.last()) {
        lemma_trim_end_prefix(s.drop_last());
        assert(s.drop_last().take(trim_end(s).len() as int) =~= s.take(trim_end(s).len() as int));
    } else {
        assert(s.take(s.len() as int) =~= s);
    }
}

/// The characters of cells that hold no `\n` hold none.
proof fn lemma_span_no_newline(cells: Seq<Cell>, cols: int, row: int, from: int, to: int)
    requires
        forall|k: int| 0 <= k < cells.len() ==> #[trigger] cells[k].ch != '\n',
        0 <= row,
        0 <= cols,
        0 <= from,
    ensures
        no_newline(span_chars(cells, cols, row, from, to)),
    decreases to + 1 - from,
{
    if from <= to {
        lemma_span_no_newline(cells, cols, row, from + 1, to);
        let idx = row * cols + from;
        assert(row * cols >= 0) by (nonlinear_arith)
            requires
                0 <= row,
                0 <= cols,
        ;
        let head = if idx < cells.len() {
            seq![cells[idx].ch]
        } else {
            Seq::<char>::empty()
        };
        let rest = span_chars(cells, cols, row, from + 1, to);
        assert forall|i: int| 0 <= i < (head + rest).len() implies #[trigger] (head + rest)[i] != '\n' by {
            if i >= head.len() {
                assert((head + rest)[i] == rest[i - head.len()]);
            }
        }
    }
}

proof fn lemma_range_text_lines(cells: Seq<Cell>, cols: u16, rows: u16, r: int, r1: int, c1: int, r2: int, c2: int)
    requires
        forall|k: int| 0 <= k < cells.len() ==> #[trigger] cells[k].ch != '\n',
        0 <= r,
        0 <= c1,
    ensures
        no_line_ends_in_ws(range_text(cells, cols, rows, r, r1, c1, r2, c2)),
        r > r2 || r >= rows ==> range_text(cells, cols, rows, r, r1, c1, r2, c2).len() == 0,
    decreases r2 + 1 - r,
{
    if !(r > r2 || r >= rows) {
        lemma_range_text_lines(cells, cols, rows, r + 1, r1, c1, r2, c2);
        let last = if cols >= 1 {
            cols - 1
        } else {
            0
        };
        let cs = if r == r1 {
            c1
        } else {
            0
        };
        let ce = if r == r2 {
            if c2 <= last {
                c2
            } else {
                last as int
            }
        } else {
            last as int
        };
        let span = span_chars(cells, cols as int, r, cs, ce);
        let t1 = trim_end(span);
        let sep = if r != r2 {
            seq!['\n']
        } else {
            Seq::<char>::empty()
        };
        let rest = range_text(cells, cols, rows, r + 1, r1, c1, r2, c2);
        let t = t1 + sep + rest;
        assert(t == range_text(cells, cols, rows, r, r1, c1, r2, c2));
        lemma_span_no_newline(cells, cols as int, r, cs, ce);
        lemma_trim_end_prefix(span);
        assert(no_newline(t1)) by {
            assert forall|i: int| 0 <= i < t1.len() implies #[trigger] t1[i] != '\n' by {
                assert(t1[i] == span[i]);
            }
        }
        assert forall|i: int|
            0 <= i < t.len() && t[i] != '\n' && (i + 1 == t.len() || t[i + 1] == '\n') implies !is_ws(
            #[trigger] t[i],
        ) by {
            if i < t1.len() {
                assert(t[i] == t1[i]);
                if i + 1 < t1.len() {
                    assert(t[i + 1] == t1[i + 1]);
                } else {
                    assert(t1.last() == t1[i]);
                }
            } else if i < t1.len() + sep.len() {
                assert(t[i] == '\n');
            } else {
                let j = i - t1.len() - sep.len();
                assert(t[i] == rest[j]);
                if i + 1 < t.len() {
                    assert(t[i + 1] == rest[j + 1]);
                }
            }
        }
    }
}

/// When no cell holds a `\n`, no line of the text of a cell range ends in
/// whitespace: each row's text is trimmed before the rows are joined.
pub proof fn lemma_text_of_lines_trimmed(s: GridSnapshot, c1: u16, r1: u16, c2: u16, r2: u16)
    requires
        forall|k: int| 0 <= k < s.cells@.len() ==> #[trigger] s.cells@[k].ch != '\n',
    ensures
        no_line_ends_in_ws(s.text_of(c1, r1, c2, r2)),
{
    lemma_range_text_lines(s.cells@, s.cols, s.rows, r1 as int, r1 as int, c1 as int, r2 as int, c2 as int);
    lemma_range_text_lines(s.cells@, s.cols, s.rows, r2 as int, r2 as int, c2 as int, r1 as int, c1 as int);
}

/// SGR with one colour parameter sets one colour of the pen and nothing
/// else: 30–37 the foreground to black, red, green, yellow, blue, magenta,
/// cyan, white; 90–97 the foreground to the bright colour of the same
/// name; 40–47 and 100–107 the background likewise.
pub proof fn lemma_sgr_palette_colors(g: GridView)
    ensures
        g.sgr(seq![30i64]) == (GridView { fg: Color::Named(NamedColor::Black), ..g }),
        g.sgr(seq![31i64]) == (GridView { fg: Color::Named(NamedColor::Red), ..g }),
        g.sgr(seq![32i64]) == (GridView { fg: Color::Named(NamedColor::Green), ..g }),
        g.sgr(seq![33i64]) == (GridView { fg: Color::Named(NamedColor::Yellow), ..g }),
        g.sgr(seq![34i64]) == (GridView { fg: Color::Named(NamedColor::Blue), ..g }),
        g.sgr(seq![35i64]) == (GridView { fg: Color::Named(NamedColor::Magenta), ..g }),
        g.sgr(seq![36i64]) == (GridView { fg: Color::Named(NamedColor::Cyan), ..g }),
        g.sgr(seq![37i64]) == (GridView { fg: Color::Named(NamedColor::White), ..g }),
        g.sgr(seq![90i64]) == (GridView { fg: Color::Named(NamedColor::BrightBlack), ..g }),
        g.sgr(seq![91i64]) == (GridView { fg: Color::Named(NamedColor::BrightRed), ..g }),
        g.sgr(seq![92i64]) == (GridView { fg: Color::Named(NamedColor::BrightGreen), ..g }),
        g.sgr(seq![93i64]) == (GridView { fg: Color::Named(NamedColor::BrightYellow), ..g }),
        g.sgr(seq![94i64]) == (GridView { fg: Color::Named(NamedColor::BrightBlue), ..g }),
        g.sgr(seq![95i64]) == (GridView { fg: Color::Named(NamedColor::BrightMagenta), ..g }),
        g.sgr(seq![96i64]) == (GridView { fg: Color::Named(NamedColor::BrightCyan), ..g }),
        g.sgr(seq![97i64]) == (GridView { fg: Color::Named(NamedColor::BrightWhite), ..g }),
        g.sgr(seq![40i64]) == (GridView { bg: Color::Named(NamedColor::Black), ..g }),
        g.sgr(seq![41i64]) == (GridView { bg: Color::Named(NamedColor::Red), ..g }),
        g.sgr(seq![42i64]) == (GridView { bg: Color::Named(NamedColor::Green), ..g }),
        g.sgr(seq![43i64]) == (GridView { bg: Color::Named(NamedColor::Yellow), ..g }),
        g.sgr(seq![44i64]) == (GridView { bg: Color::Named(NamedColor::Blue), ..g }),
        g.sgr(seq![45i64]) == (GridView { bg: Color::Named(NamedColor::Magenta), ..g }),
        g.sgr(seq![46i64]) == (GridView { bg: Color::Named(NamedColor::Cyan), ..g }),
        g.sgr(seq![47i64]) == (GridView { bg: Color::Named(NamedColor::White), ..g }),
        g.sgr(seq![100i64]) == (GridView { bg: Color::Named(NamedColor::BrightBlack), ..g }),
        g.sgr(seq![101i64]) == (GridView { bg: Color::Named(NamedColor::BrightRed), ..g }),
        g.sgr(seq![102i64]) == (GridView { bg: Color::Named(NamedColor::BrightGreen), ..g }),
        g.sgr(seq![103i64]) == (GridView { bg: Color::Named(NamedColor::BrightYellow), ..g }),
        g.sgr(seq![104i64]) == (GridView { bg: Color::Named(NamedColor::BrightBlue), ..g }),
        g.sgr(seq![105i64]) == (GridView { bg: Color::Named(NamedColor::BrightMagenta), ..g }),
        g.sgr(seq![106i64]) == (GridView { bg: Color::Named(NamedColor::BrightCyan), ..g }),
        g.sgr(seq![107i64]) == (GridView { bg: Color::Named(NamedColor::BrightWhite), ..g }),
{
    reveal_with_fuel(sgr_from, 2);
}

/// The normal and the bright foreground of the same palette index differ.
pub proof fn lemma_sgr_bright_differs(g: GridView, i: i64)
    requires
        0 <= i <= 7,
    ensures
        g.sgr(seq![(90 + i) as i64]).fg != g.sgr(seq![(30 + i) as i64]).fg,
        g.sgr(seq![(100 + i) as i64]).bg != g.sgr(seq![(40 + i) as i64]).bg,
{
    lemma_sgr_palette_colors(g);
}

/// Erase in line blanks cells of the cursor's row only: from the cursor to
/// the end of the row (mode 0), from the start of the row through the
/// cursor (mode 1), or the whole row whatever the cursor's column (mode 2);
/// other modes blank nothing. Every other cell, the scrollback, the cursor
/// and the pen are kept.
pub proof fn lemma_erase_in_line_cells(g: GridView, mode: u16, r: int, c: int)
    requires
        g.wf(),
        0 <= r < g.rows,
        0 <= c < g.cols,
    ensures
        g.erase_in_line(mode).cell(r, c) == (if r == g.cursor_row && (mode == 2 || (mode == 0
            && c >= g.cursor_col) || (mode == 1 && c <= g.cursor_col)) {
            blank_cell()
        } else {
            g.cell(r, c)
        }),
        g.erase_in_line(mode).lines.len() == g.lines.len(),
        forall|i: int| 0 <= i < g.visible_start() ==> #[trigger] g.erase_in_line(mode).lines[i] == g.lines[i],
        g.erase_in_line(mode).cursor_col == g.cursor_col,
        g.erase_in_line(mode).cursor_row == g.cursor_row,
        g.erase_in_line(mode).pen() == g.pen(),
        g.erase_in_line(mode).cols == g.cols,
        g.erase_in_line(mode).rows == g.rows,
{
    let vs = g.visible_start();
    assert(g.lines[vs + r].len() == g.cols);
}

/// Erase in display blanks, on the screen: from the cursor to the end of
/// the screen (mode 0), from the start of the screen through the cursor
/// (mode 1), or every cell (modes 2 and 3); other modes blank nothing.
/// Every other cell, the scrollback, the cursor and the pen are kept.
pub proof fn lemma_erase_in_display_cells(g: GridView, mode: u16, r: int, c: int)
    requires
        g.wf(),
        0 <= r < g.rows,
        0 <= c < g.cols,
    ensures
        g.erase_in_display(mode).cell(r, c) == (if mode == 2 || mode == 3 || (mode == 0 && (r
            > g.cursor_row || (r == g.cursor_row && c >= g.cursor_col))) || (mode == 1 && (r
            < g.cursor_row || (r == g.cursor_row && c <= g.cursor_col))) {
            blank_cell()
        } else {
            g.cell(r, c)
        }),
        g.erase_in_display(mode).lines.len() == g.lines.len(),
        forall|i: int|
            0 <= i < g.visible_start() ==> #[trigger] g.erase_in_display(mode).lines[i] == g.lines[i],
        g.erase_in_display(mode).cursor_col == g.cursor_col,
        g.erase_in_display(mode).cursor_row == g.cursor_row,
        g.erase_in_display(mode).pen() == g.pen(),
        g.erase_in_display(mode).cols == g.cols,
        g.erase_in_display(mode).rows == g.rows,
{
    let vs = g.visible_start();
    assert(g.lines[vs + r].len() == g.cols);
}

/// SGR attributes and defaults: no parameter or 0 resets the pen to the
/// default colors with no attributes; 1, 4 and 7 turn bold, underline and
/// inverse on and 22, 24 and 27 turn them off; 39 and 49 restore the
/// default foreground and background. Nothing else changes.
pub proof fn lemma_sgr_attributes(g: GridView)
    ensures
        g.sgr(seq![]) == (GridView {
            fg: Color::Named(NamedColor::Foreground),
            bg: Color::Named(NamedColor::Background),
            attr: CellAttr { bold: false, underline: false, inverse: false },
            ..g
        }),
        g.sgr(seq![0i64]) == (GridView {
            fg: Color::Named(NamedColor::Foreground),
            bg: Color::Named(NamedColor::Background),
            attr: CellAttr { bold: false, underline: false, inverse: false },
            ..g
        }),
        g.sgr(seq![1i64]) == (GridView { attr: CellAttr { bold: true, ..g.attr }, ..g }),
        g.sgr(seq![4i64]) == (GridView { attr: CellAttr { underline: true, ..g.attr }, ..g }),
        g.sgr(seq![7i64]) == (GridView { attr: CellAttr { inverse: true, ..g.attr }, ..g }),
        g.sgr(seq![22i64]) == (GridView { attr: CellAttr { bold: false, ..g.attr }, ..g }),
        g.sgr(seq![24i64]) == (GridView { attr: CellAttr { underline: false, ..g.attr }, ..g }),
        g.sgr(seq![27i64]) == (GridView { attr: CellAttr { inverse: false, ..g.attr }, ..g }),
        g.sgr(seq![39i64]) == (GridView { fg: Color::Named(NamedColor::Foreground), ..g }),
        g.sgr(seq![49i64]) == (GridView { bg: Color::Named(NamedColor::Background), ..g }),
{
    reveal_with_fuel(sgr_from, 2);
}

/// Extended colors: `38;5;n` and `48;5;n` set the foreground or the
/// background to indexed color `n`, and `38;2;r;g;b` and `48;2;r;g;b` to
/// the true color `(r, g, b)`; nothing else changes.
pub proof fn lemma_sgr_extended_colors(g: GridView, n: u8, r: u8, gr: u8, b: u8)
    ensures
        g.sgr(seq![38i64, 5i64, n as i64]) == (GridView { fg: Color::Indexed(n), ..g }),
        g.sgr(seq![48i64, 5i64, n as i64]) == (GridView { bg: Color::Indexed(n), ..g }),
        g.sgr(seq![38i64, 2i64, r as i64, gr as i64, b as i64]) == (GridView {
            fg: Color::Rgb(r, gr, b),
            ..g
        }),
        g.sgr(seq![48i64, 2i64, r as i64, gr as i64, b as i64]) == (GridView {
            bg: Color::Rgb(r, gr, b),
            ..g
        }),
{
    reveal_with_fuel(sgr_from, 2);
}

/// Two SGR parameters act one after the other, the first not being the
/// start of an extended color (38 or 48).
pub proof fn lemma_sgr_in_order(g: GridView, a: i64, b: i64)
    requires
        a != 38,
        a != 48,
    ensures
        g.sgr(seq![a, b]) == g.sgr(seq![a]).sgr(seq![b]),
{
    reveal_with_fuel(sgr_from, 3);
    let p = seq![a, b];
    let (q, j) = sgr_step(p, 0, g.pen());
    assert(sgr_step(p, 0, g.pen()) == sgr_step(seq![a], 0, g.pen()));
    assert(sgr_step(p, 1, q).0 == sgr_step(seq![b], 0, q).0 && sgr_step(p, 1, q).1 == sgr_step(
        seq![b],
        0,
        q,
    ).1 + 1) by {
        assert(p[1] == seq![b][0]);
        assert(extended_color(p, 1) == (
            extended_color(seq![b], 0).0,
            extended_color(seq![b], 0).1 + 1,
        ));
    }
}

} // verus!

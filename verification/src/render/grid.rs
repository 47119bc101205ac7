//! Bridge between the terminal emulation backend and the text renderer.
//!
//! Extracts text, per-cell foreground/background colors, and cursor info
//! from a snapshot of the terminal's renderable content: the cells it
//! displays, each with its position, and the cursor.

use vstd::prelude::*;

use crate::render::colors::{color_rgb, default_bg, is_default_bg, resolve_color, Color};
use crate::text::{is_whitespace, push_char, trim_back_to};

verus! {

// ---------------------------------------------------------------------------
// Cursor types
// ---------------------------------------------------------------------------

/// Terminal cursor shape.
#[derive(Debug, Clone, Copy, PartialEq, Eq, Structural)]
pub enum CursorShape {
    Block,
    HollowBlock,
    Underline,
    Beam,
    Hidden,
}

/// Information about the terminal cursor for rendering.
#[derive(Debug, Clone, Copy, PartialEq, Eq, Structural)]
pub struct CursorInfo {
    /// Row index (0-based, from the top of the visible area).
    pub line: usize,
    /// Column index (0-based).
    pub col: usize,
    /// Cursor shape to render.
    pub shape: CursorShape,
}

// ---------------------------------------------------------------------------
// Styled cell types
// ---------------------------------------------------------------------------

/// A single cell with its character, resolved foreground color, and text
/// attributes.
#[derive(Debug, Clone, Copy, PartialEq, Eq)]
pub struct StyledCell {
    pub c: char,
    pub fg: (u8, u8, u8),
    pub bold: bool,
    pub italic: bool,
    pub underline: bool,
    pub strikethrough: bool,
}

/// A batched background rectangle (consecutive same-colored cells on one line).
#[derive(Debug, Clone, Copy, PartialEq, Eq)]
pub struct BgRect {
    pub col: usize,
    pub line: usize,
    pub width: usize,
    pub color: (u8, u8, u8),
}

/// Complete extracted grid content: styled cells, cursor, and background rects.
pub struct GridContent {
    pub styled_lines: Vec<Vec<StyledCell>>,
    pub cursor: Option<CursorInfo>,
    pub bg_rects: Vec<BgRect>,
}

// ---------------------------------------------------------------------------
// The renderable content of a terminal
// ---------------------------------------------------------------------------

/// One displayed cell: where it is, what it shows, and how.
#[derive(Debug, Clone, Copy, PartialEq, Eq, Structural)]
pub struct RenderCell {
    /// Line of the cell in the viewport (negative above it).
    pub line: i32,
    pub col: usize,
    pub c: char,
    pub fg: Color,
    pub bg: Color,
    pub bold: bool,
    pub italic: bool,
    pub underline: bool,
    pub strikethrough: bool,
}

/// The cursor as the terminal reports it.
#[derive(Debug, Clone, Copy, PartialEq, Eq, Structural)]
pub struct RenderCursor {
    pub line: i32,
    pub col: usize,
    pub shape: CursorShape,
}

/// A snapshot of what a terminal displays.
pub struct ScreenContent {
    pub cols: usize,
    pub rows: usize,
    pub cursor: RenderCursor,
    pub cells: Vec<RenderCell>,
}

// ---------------------------------------------------------------------------
// Extraction, as mathematics
// ---------------------------------------------------------------------------

/// The foreground of a cell that shows nothing.
pub open spec fn default_fg() -> (u8, u8, u8) {
    (0xcd, 0xd6, 0xf4)
}

pub open spec fn default_cell() -> StyledCell {
    StyledCell {
        c: ' ',
        fg: default_fg(),
        bold: false,
        italic: false,
        underline: false,
        strikethrough: false,
    }
}

/// `char::is_control`: the Unicode general category `Cc`.
pub open spec fn is_control(c: char) -> bool {
    (c as u32) <= 0x1f || (0x7f <= (c as u32) && (c as u32) <= 0x9f)
}

/// The cell lies in the visible grid.
pub open spec fn in_grid(cell: RenderCell, cols: usize, rows: usize) -> bool {
    cell.line >= 0 && cell.line < rows && cell.col < cols
}

/// The styled form of a displayed cell.
pub open spec fn styled(cell: RenderCell) -> StyledCell {
    StyledCell {
        c: cell.c,
        fg: color_rgb(cell.fg),
        bold: cell.bold,
        italic: cell.italic,
        underline: cell.underline,
        strikethrough: cell.strikethrough,
    }
}

/// A grid of `rows` lines of `cols` copies of `x`.
pub open spec fn filled<T>(rows: usize, cols: usize, x: T) -> Seq<Seq<T>> {
    Seq::new(rows as nat, |i: int| Seq::new(cols as nat, |j: int| x))
}

/// The styled lines after painting `cells`, in order, onto a blank grid.
pub open spec fn painted(cells: Seq<RenderCell>, cols: usize, rows: usize) -> Seq<Seq<StyledCell>>
    decreases cells.len(),
{
    if cells.len() == 0 {
        filled(rows, cols, default_cell())
    } else {
        let g = painted(cells.drop_last(), cols, rows);
        let cell = cells.last();
        if in_grid(cell, cols, rows) && !is_control(cell.c) && cell.c != '\0' {
            g.update(cell.line as int, g[cell.line as int].update(cell.col as int, styled(cell)))
        } else {
            g
        }
    }
}

/// The explicit background of each cell after `cells` (`None` for default).
pub open spec fn backgrounds(cells: Seq<RenderCell>, cols: usize, rows: usize) -> Seq<
    Seq<Option<(u8, u8, u8)>>,
>
    decreases cells.len(),
{
    if cells.len() == 0 {
        filled(rows, cols, None)
    } else {
        let g = backgrounds(cells.drop_last(), cols, rows);
        let cell = cells.last();
        if in_grid(cell, cols, rows) && !default_bg(cell.bg) {
            g.update(
                cell.line as int,
                g[cell.line as int].update(cell.col as int, Some(color_rgb(cell.bg))),
            )
        } else {
            g
        }
    }
}

/// The end of the run of `color` that continues at `k`.
pub open spec fn run_end(row: Seq<Option<(u8, u8, u8)>>, k: int, color: (u8, u8, u8)) -> int
    decreases row.len() - k,
{
    if 0 <= k < row.len() && row[k] == Some(color) {
        run_end(row, k + 1, color)
    } else {
        k
    }
}

/// The rectangles of the runs of one line from column `col` on.
pub open spec fn row_rects(row: Seq<Option<(u8, u8, u8)>>, line: int, col: int) -> Seq<BgRect>
    decreases row.len() - col,
{
    if col < 0 || col >= row.len() {
        seq![]
    } else {
        match row[col] {
            None => row_rects(row, line, col + 1),
            Some(color) => {
                let e = run_end(row, col + 1, color);
                proof {
                    lemma_run_end(row, col + 1, color);
                }
                seq![
                    BgRect {
                        col: col as usize,
                        line: line as usize,
                        width: (e - col) as usize,
                        color,
                    },
                ] + row_rects(row, line, e)
            },
        }
    }
}

/// The rectangles of all lines, top to bottom.
pub open spec fn grid_rects(bg: Seq<Seq<Option<(u8, u8, u8)>>>) -> Seq<BgRect>
    decreases bg.len(),
{
    if bg.len() == 0 {
        seq![]
    } else {
        grid_rects(bg.drop_last()) + row_rects(bg.last(), bg.len() - 1, 0)
    }
}

/// The cursor to draw, if it is shown and not above the viewport.
pub open spec fn cursor_info(cur: RenderCursor) -> Option<CursorInfo> {
    if cur.shape != CursorShape::Hidden && cur.line >= 0 {
        Some(CursorInfo { line: cur.line as usize, col: cur.col, shape: cur.shape })
    } else {
        None
    }
}

/// A run ends after where it continues and within the line.
pub proof fn lemma_run_end(row: Seq<Option<(u8, u8, u8)>>, k: int, color: (u8, u8, u8))
    requires
        0 <= k,
    ensures
        k <= run_end(row, k, color),
        k <= row.len() ==> run_end(row, k, color) <= row.len(),
        forall|j: int| k <= j < run_end(row, k, color) ==> row[j] == Some(color),
        run_end(row, k, color) < row.len() ==> row[run_end(row, k, color)] != Some(color),
    decreases row.len() - k,
{
    if k < row.len() && row[k] == Some(color) {
        lemma_run_end(row, k + 1, color);
    }
}

/// The rows of a grid of vectors, as sequences.
pub open spec fn rows_view<T>(v: Seq<Vec<T>>) -> Seq<Seq<T>> {
    v.map_values(|r: Vec<T>| r@)
}

/// Every line of the grid has `cols` cells.
pub open spec fn shaped<T>(g: Seq<Seq<T>>, cols: usize, rows: usize) -> bool {
    g.len() == rows && forall|i: int| 0 <= i < rows ==> #[trigger] g[i].len() == cols
}

proof fn lemma_painted_shape(cells: Seq<RenderCell>, cols: usize, rows: usize)
    ensures
        shaped(painted(cells, cols, rows), cols, rows),
        shaped(backgrounds(cells, cols, rows), cols, rows),
    decreases cells.len(),
{
    if cells.len() > 0 {
        lemma_painted_shape(cells.drop_last(), cols, rows);
    }
}

// ---------------------------------------------------------------------------
// Grid extraction
// ---------------------------------------------------------------------------

/// A grid of `rows` lines of `cols` copies of `x`.
fn filled_grid<T: Copy>(rows: usize, cols: usize, x: T) -> (g: Vec<Vec<T>>)
    ensures
        rows_view(g@) == filled(rows, cols, x),
{
    let mut g: Vec<Vec<T>> = Vec::new();
    for i in 0..rows
        invariant
            g@.len() == i,
            forall|k: int| 0 <= k < i ==> (#[trigger] g@[k])@ == Seq::new(cols as nat, |j: int| x),
    {
        let mut row: Vec<T> = Vec::new();
        for j in 0..cols
            invariant
                row@ == Seq::new(j as nat, |k: int| x),
        {
            row.push(x);
            assert(row@ =~= Seq::new((j + 1) as nat, |k: int| x));
        }
        g.push(row);
    }
    assert(rows_view(g@) =~= filled(rows, cols, x));
    g
}

/// Set cell `j` of line `i`.
fn set_cell<T>(g: &mut Vec<Vec<T>>, i: usize, j: usize, x: T)
    requires
        i < old(g)@.len(),
        j < old(g)@[i as int]@.len(),
    ensures
        rows_view(final(g)@) == rows_view(old(g)@).update(
            i as int,
            old(g)@[i as int]@.update(j as int, x),
        ),
{
    let mut row: Vec<T> = Vec::new();
    std::mem::swap(&mut row, &mut g[i]);
    row.set(j, x);
    std::mem::swap(&mut row, &mut g[i]);
    assert(rows_view(g@) =~= rows_view(old(g)@).update(i as int, old(g)@[i as int]@.update(j as int, x)));
}

/// `char::is_control`.
fn is_control_char(c: char) -> (b: bool)
    ensures
        b == is_control(c),
{
    let u = c as u32;
    u <= 0x1f || (0x7f <= u && u <= 0x9f)
}

/// The rectangles of the runs of colored cells on one line.
fn batch_row(row: &Vec<Option<(u8, u8, u8)>>, line: usize, out: &mut Vec<BgRect>)
    ensures
        final(out)@ == old(out)@ + row_rects(row@, line as int, 0),
{
    let cols = row.len();
    let mut col: usize = 0;
    while col < cols
        invariant
            cols == row@.len(),
            col <= cols,
            old(out)@ + row_rects(row@, line as int, 0) == out@ + row_rects(row@, line as int, col as int),
        decreases cols - col,
    {
        let ghost before = out@;
        if let Some(color) = row[col] {
            let start_col = col;
            col += 1;
            while col < cols && row[col] == Some(color)
                invariant
                    start_col < col <= cols,
                    cols == row@.len(),
                    run_end(row@, start_col + 1, color) == run_end(row@, col as int, color),
                decreases cols - col,
            {
                col += 1;
            }
            proof {
                lemma_run_end(row@, start_col + 1, color);
            }
            out.push(BgRect { col: start_col, line, width: col - start_col, color });
            assert(out@ + row_rects(row@, line as int, col as int) =~= before + row_rects(
                row@,
                line as int,
                start_col as int,
            ));
        } else {
            col += 1;
        }
    }
    assert(row_rects(row@, line as int, col as int) == Seq::<BgRect>::empty());
    assert(out@ + Seq::<BgRect>::empty() =~= out@);
}

/// Extract the visible terminal grid with styled cells, cursor, and bg rects.
pub fn extract_grid(content: &ScreenContent) -> (g: GridContent)
    ensures
        rows_view(g.styled_lines@) == painted(content.cells@, content.cols, content.rows),
        g.cursor == cursor_info(content.cursor),
        g.cursor is Some <==> (content.cursor.shape != CursorShape::Hidden && content.cursor.line >= 0),
        g.cursor matches Some(c) ==> c.line == content.cursor.line && c.col == content.cursor.col
            && c.shape == content.cursor.shape,
        g.bg_rects@ == grid_rects(backgrounds(content.cells@, content.cols, content.rows)),
{
    // Extract cursor info.
    let rc = content.cursor;
    let cursor = if rc.shape != CursorShape::Hidden && rc.line >= 0 {
        Some(CursorInfo { line: rc.line as usize, col: rc.col, shape: rc.shape })
    } else {
        None
    };
    let cols = content.cols;
    let rows = content.rows;
    let default_cell = StyledCell {
        c: ' ',
        fg: (0xcd, 0xd6, 0xf4),
        bold: false,
        italic: false,
        underline: false,
        strikethrough: false,
    };
    let mut styled_lines = filled_grid(rows, cols, default_cell);
    // Collect bg colors per cell for batching: None = default bg.
    let mut bg_grid: Vec<Vec<Option<(u8, u8, u8)>>> = filled_grid(rows, cols, None);
    let ghost cells = content.cells@;
    assert(cells.take(0) =~= Seq::<RenderCell>::empty());
    for k in 0..content.cells.len()
        invariant
            cells == content.cells@,
            cols == content.cols,
            rows == content.rows,
            rows_view(styled_lines@) == painted(cells.take(k as int), cols, rows),
            rows_view(bg_grid@) == backgrounds(cells.take(k as int), cols, rows),
    {
        let cell = content.cells[k];
        proof {
            lemma_painted_shape(cells.take(k as int), cols, rows);
            assert(cells.take(k + 1).drop_last() =~= cells.take(k as int));
            assert(cells.take(k + 1).last() == cell);
        }
        let line = cell.line;
        let col = cell.col;
        if line >= 0 && (line as usize) < rows && col < cols {
            let li = line as usize;
            let c = cell.c;
            assert(rows_view(styled_lines@)[li as int] == styled_lines@[li as int]@);
            assert(rows_view(bg_grid@)[li as int] == bg_grid@[li as int]@);
            if !is_control_char(c) && c != '\0' {
                let fg = resolve_color(&cell.fg);
                set_cell(
                    &mut styled_lines,
                    li,
                    col,
                    StyledCell {
                        c,
                        fg,
                        bold: cell.bold,
                        italic: cell.italic,
                        underline: cell.underline,
                        strikethrough: cell.strikethrough,
                    },
                );
            }
            // Collect background color if non-default.
            if !is_default_bg(&cell.bg) {
                let bg = resolve_color(&cell.bg);
                set_cell(&mut bg_grid, li, col, Some(bg));
            }
        }
    }
    assert(cells.take(cells.len() as int) =~= cells);
    // Batch bg cells into rectangles (merge consecutive same-colored cells per line).
    let mut bg_rects: Vec<BgRect> = Vec::new();
    let ghost bgv = rows_view(bg_grid@);
    assert(bgv.take(0) =~= Seq::<Seq<Option<(u8, u8, u8)>>>::empty());
    for line_idx in 0..bg_grid.len()
        invariant
            bgv == rows_view(bg_grid@),
            bg_rects@ == grid_rects(bgv.take(line_idx as int)),
    {
        assert(bgv.take(line_idx + 1).drop_last() =~= bgv.take(line_idx as int));
        assert(bgv.take(line_idx + 1).last() == bg_grid@[line_idx as int]@);
        batch_row(&bg_grid[line_idx], line_idx, &mut bg_rects);
    }
    assert(bgv.take(bgv.len() as int) =~= bgv);
    GridContent { styled_lines, cursor, bg_rects }
}

/// The text of a line without its trailing whitespace (`str::trim_end`).
pub open spec fn trim_end(s: Seq<char>) -> Seq<char> {
    s.take(trim_back_to(s, 0, s.len() as int))
}

/// The characters of a line of cells.
pub open spec fn line_chars(row: Seq<StyledCell>) -> Seq<char> {
    row.map_values(|cell: StyledCell| cell.c)
}

/// Extract the visible terminal grid as one string per row, each without
/// its trailing whitespace. Discards color and cursor info.
pub fn extract_grid_text(content: &ScreenContent) -> (lines: Vec<String>)
    ensures
        lines@.len() == content.rows,
        forall|i: int|
            0 <= i < lines@.len() ==> (#[trigger] lines@[i])@ == trim_end(
                line_chars(painted(content.cells@, content.cols, content.rows)[i]),
            ),
{
    let grid = extract_grid(content);
    proof {
        lemma_painted_shape(content.cells@, content.cols, content.rows);
    }
    let ghost p = painted(content.cells@, content.cols, content.rows);
    let mut lines: Vec<String> = Vec::new();
    for i in 0..grid.styled_lines.len()
        invariant
            rows_view(grid.styled_lines@) == p,
            p.len() == content.rows,
            lines@.len() == i,
            forall|k: int| 0 <= k < i ==> (#[trigger] lines@[k])@ == trim_end(line_chars(p[k])),
    {
        let row = &grid.styled_lines[i];
        assert(p[i as int] == row@);
        // Find the end of the text without trailing whitespace.
        let mut end = row.len();
        while end > 0 && is_whitespace(row[end - 1].c)
            invariant
                end <= row@.len(),
                trim_back_to(line_chars(row@), 0, row@.len() as int) == trim_back_to(
                    line_chars(row@),
                    0,
                    end as int,
                ),
            decreases end,
        {
            end -= 1;
        }
        let mut s = String::new();
        for j in 0..end
            invariant
                end <= row@.len(),
                s@ == line_chars(row@).take(j as int),
        {
            push_char(&mut s, row[j].c);
            assert(line_chars(row@).take(j + 1) =~= line_chars(row@).take(j as int).push(row@[j as int].c));
        }
        lines.push(s);
    }
    lines
}

// ---------------------------------------------------------------------------
// Laws
// ---------------------------------------------------------------------------

/// A rectangle covers a run of one color on its line: it has width, lies
/// within the line, every cell it covers has its color, and the cell right
/// after it does not (runs are merged as far as they go).
pub open spec fn covers_run(r: BgRect, row: Seq<Option<(u8, u8, u8)>>, line: int) -> bool {
    &&& r.line == line
    &&& r.width >= 1
    &&& r.col + r.width <= row.len()
    &&& forall|j: int| r.col <= j < r.col + r.width ==> row[j] == Some(r.color)
    &&& r.col + r.width < row.len() ==> row[r.col + r.width] != Some(r.color)
}

/// Every rectangle batched from a line covers a run of one color.
pub proof fn lemma_row_rects_cover(row: Seq<Option<(u8, u8, u8)>>, line: int, col: int)
    requires
        0 <= col,
        0 <= line <= usize::MAX,
        row.len() <= usize::MAX,
    ensures
        forall|k: int|
            0 <= k < row_rects(row, line, col).len() ==> covers_run(
                #[trigger] row_rects(row, line, col)[k],
                row,
                line,
            ) && col <= row_rects(row, line, col)[k].col,
    decreases row.len() - col,
{
    if col < row.len() {
        if let Some(color) = row[col] {
            let e = run_end(row, col + 1, color);
            lemma_run_end(row, col + 1, color);
            lemma_row_rects_cover(row, line, e);
            let rest = row_rects(row, line, e);
            let all = row_rects(row, line, col);
            let head = BgRect {
                col: col as usize,
                line: line as usize,
                width: (e - col) as usize,
                color,
            };
            assert(all == seq![head] + rest);
            assert(covers_run(head, row, line));
            assert forall|k: int| 0 <= k < all.len() implies covers_run(#[trigger] all[k], row, line)
                && col <= all[k].col by {
                if k > 0 {
                    assert(all[k] == rest[k - 1]);
                } else {
                    assert(all[k] == head);
                }
            }
        } else {
            lemma_row_rects_cover(row, line, col + 1);
            assert(row_rects(row, line, col) == row_rects(row, line, col + 1));
        }
    }
}

/// The rectangles of a line come left to right without overlapping.
pub proof fn lemma_row_rects_ordered(row: Seq<Option<(u8, u8, u8)>>, line: int, col: int)
    requires
        0 <= col,
        0 <= line <= usize::MAX,
        row.len() <= usize::MAX,
    ensures
        forall|k: int|
            0 <= k < row_rects(row, line, col).len() - 1 ==> #[trigger] row_rects(row, line, col)[k].col
                + row_rects(row, line, col)[k].width <= row_rects(row, line, col)[k + 1].col,
    decreases row.len() - col,
{
    if col < row.len() {
        if let Some(color) = row[col] {
            let e = run_end(row, col + 1, color);
            lemma_run_end(row, col + 1, color);
            lemma_row_rects_ordered(row, line, e);
            lemma_row_rects_cover(row, line, e);
            let rest = row_rects(row, line, e);
            let all = row_rects(row, line, col);
            let head = BgRect {
                col: col as usize,
                line: line as usize,
                width: (e - col) as usize,
                color,
            };
            assert(all == seq![head] + rest);
            assert forall|k: int| 0 <= k < all.len() - 1 implies #[trigger] all[k].col + all[k].width
                <= all[k + 1].col by {
                assert(all[k + 1] == rest[k]);
                if k > 0 {
                    assert(all[k] == rest[k - 1]);
                } else {
                    assert(all[k] == head);
                    assert(e <= rest[0].col);
                }
            }
        } else {
            lemma_row_rects_ordered(row, line, col + 1);
            assert(row_rects(row, line, col) == row_rects(row, line, col + 1));
        }
    }
}

/// No colored cell of a line is left out of its rectangles.
pub proof fn lemma_row_rects_complete(row: Seq<Option<(u8, u8, u8)>>, line: int, col: int, j: int)
    requires
        0 <= col <= j < row.len(),
        row[j] is Some,
        0 <= line <= usize::MAX,
        row.len() <= usize::MAX,
    ensures
        exists|k: int|
            0 <= k < row_rects(row, line, col).len() && #[trigger] row_rects(row, line, col)[k].col
                <= j < row_rects(row, line, col)[k].col + row_rects(row, line, col)[k].width,
    decreases row.len() - col,
{
    let all = row_rects(row, line, col);
    if let Some(color) = row[col] {
        let e = run_end(row, col + 1, color);
        lemma_run_end(row, col + 1, color);
        if j < e {
            assert(all[0].col <= j < all[0].col + all[0].width);
        } else {
            lemma_row_rects_complete(row, line, e, j);
            let rest = row_rects(row, line, e);
            let k = choose|k: int|
                0 <= k < rest.len() && #[trigger] rest[k].col <= j < rest[k].col + rest[k].width;
            assert(all[k + 1] == rest[k]);
        }
    } else {
        lemma_row_rects_complete(row, line, col + 1, j);
    }
}

/// Rectangles of one line come in order without overlapping, any two of
/// them, and the cell just before each one is not of its color.
proof fn lemma_row_rects_apart(row: Seq<Option<(u8, u8, u8)>>, line: int, col: int)
    requires
        0 <= col,
        0 <= line <= usize::MAX,
        row.len() <= usize::MAX,
        col == 0 || col >= row.len() || row[col] is None || row[col - 1] != row[col],
    ensures
        forall|k1: int, k2: int|
            0 <= k1 < k2 < row_rects(row, line, col).len() ==> #[trigger] row_rects(row, line, col)[k1].col
                + row_rects(row, line, col)[k1].width <= #[trigger] row_rects(row, line, col)[k2].col,
        forall|k: int|
            0 <= k < row_rects(row, line, col).len() ==> (#[trigger] row_rects(row, line, col)[k].col
                == 0 || row[row_rects(row, line, col)[k].col - 1] != Some(
                row_rects(row, line, col)[k].color,
            )),
    decreases row.len() - col,
{
    if col < row.len() {
        if let Some(color) = row[col] {
            let e = run_end(row, col + 1, color);
            lemma_run_end(row, col + 1, color);
            lemma_row_rects_cover(row, line, e);
            lemma_row_rects_apart(row, line, e);
            let rest = row_rects(row, line, e);
            let all = row_rects(row, line, col);
            let head = BgRect {
                col: col as usize,
                line: line as usize,
                width: (e - col) as usize,
                color,
            };
            assert(all == seq![head] + rest);
            assert forall|k1: int, k2: int| 0 <= k1 < k2 < all.len() implies #[trigger] all[k1].col
                + all[k1].width <= #[trigger] all[k2].col by {
                assert(all[k2] == rest[k2 - 1]);
                if k1 > 0 {
                    assert(all[k1] == rest[k1 - 1]);
                } else {
                    assert(all[k1] == head);
                }
            }
            assert forall|k: int| 0 <= k < all.len() implies (#[trigger] all[k].col == 0 || row[all[k].col
                - 1] != Some(all[k].color)) by {
                if k > 0 {
                    assert(all[k] == rest[k - 1]);
                } else {
                    assert(all[k] == head);
                }
            }
        } else {
            lemma_row_rects_apart(row, line, col + 1);
            assert(row_rects(row, line, col) == row_rects(row, line, col + 1));
        }
    }
}

/// The background rectangles of the whole grid: each lies on a line of the
/// grid and covers a run of one color there, with width, within the line,
/// and the cells just before and after it not of its color; they come line
/// by line, left to right, without overlapping; and every cell with a
/// background of its own lies in one of them (in exactly one, as they do
/// not overlap).
pub proof fn lemma_grid_rects(bg: Seq<Seq<Option<(u8, u8, u8)>>>)
    requires
        bg.len() <= usize::MAX,
        forall|i: int| 0 <= i < bg.len() ==> #[trigger] bg[i].len() <= usize::MAX,
    ensures
        forall|k: int|
            0 <= k < grid_rects(bg).len() ==> {
                let r = #[trigger] grid_rects(bg)[k];
                &&& r.line < bg.len()
                &&& covers_run(r, bg[r.line as int], r.line as int)
                &&& (r.col == 0 || bg[r.line as int][r.col - 1] != Some(r.color))
            },
        forall|k1: int, k2: int|
            0 <= k1 < k2 < grid_rects(bg).len() ==> #[trigger] grid_rects(bg)[k1].line
                < #[trigger] grid_rects(bg)[k2].line || (grid_rects(bg)[k1].line
                == grid_rects(bg)[k2].line && grid_rects(bg)[k1].col + grid_rects(bg)[k1].width
                <= grid_rects(bg)[k2].col),
        forall|i: int, j: int|
            0 <= i < bg.len() && 0 <= j < bg[i].len() && #[trigger] bg[i][j] is Some ==> exists|k: int|
                0 <= k < grid_rects(bg).len() && #[trigger] grid_rects(bg)[k].line == i
                    && grid_rects(bg)[k].col <= j < grid_rects(bg)[k].col + grid_rects(bg)[k].width,
    decreases bg.len(),
{
    if bg.len() > 0 {
        let front = bg.drop_last();
        let line = bg.len() - 1;
        let row = bg.last();
        assert forall|i: int| 0 <= i < front.len() implies #[trigger] front[i].len() <= usize::MAX by {
            assert(front[i] == bg[i]);
        }
        lemma_grid_rects(front);
        lemma_row_rects_cover(row, line, 0);
        lemma_row_rects_apart(row, line, 0);
        let a = grid_rects(front);
        let b = row_rects(row, line, 0);
        let all = grid_rects(bg);
        assert(all == a + b);
        assert forall|k: int| 0 <= k < all.len() implies {
            let r = #[trigger] all[k];
            &&& r.line < bg.len()
            &&& covers_run(r, bg[r.line as int], r.line as int)
            &&& (r.col == 0 || bg[r.line as int][r.col - 1] != Some(r.color))
        } by {
            if k < a.len() {
                assert(all[k] == a[k]);
                assert(bg[a[k].line as int] == front[a[k].line as int]);
            } else {
                assert(all[k] == b[k - a.len()]);
            }
        }
        assert forall|k1: int, k2: int| 0 <= k1 < k2 < all.len() implies #[trigger] all[k1].line
            < #[trigger] all[k2].line || (all[k1].line == all[k2].line && all[k1].col
            + all[k1].width <= all[k2].col) by {
            if k2 < a.len() {
                assert(all[k1] == a[k1] && all[k2] == a[k2]);
            } else if k1 < a.len() {
                assert(all[k1] == a[k1] && all[k2] == b[k2 - a.len()]);
            } else {
                assert(all[k1] == b[k1 - a.len()] && all[k2] == b[k2 - a.len()]);
            }
        }
        assert forall|i: int, j: int|
            0 <= i < bg.len() && 0 <= j < bg[i].len() && #[trigger] bg[i][j] is Some implies exists|k: int|
            0 <= k < all.len() && #[trigger] all[k].line == i && all[k].col <= j < all[k].col
                + all[k].width by {
            if i < front.len() {
                assert(bg[i] == front[i]);
                assert(front[i][j] is Some);
                let k = choose|k: int|
                    0 <= k < a.len() && #[trigger] a[k].line == i && a[k].col <= j < a[k].col
                        + a[k].width;
                assert(all[k] == a[k]);
            } else {
                lemma_row_rects_complete(row, line, 0, j);
                let k = choose|k: int|
                    0 <= k < b.len() && #[trigger] b[k].col <= j < b[k].col + b[k].width;
                assert(all[a.len() + k] == b[k]);
                assert(covers_run(b[k], row, line));
            }
        }
    }
}

/// The cursor drawn is the terminal's own: it is there exactly when the
/// terminal shows it on a visible line, and then on the terminal cursor's
/// line and column, with its shape.
pub proof fn lemma_cursor_follows_terminal(cur: RenderCursor)
    ensures
        cursor_info(cur) is Some <==> (cur.shape != CursorShape::Hidden && cur.line >= 0),
        cursor_info(cur) matches Some(c) ==> c.line == cur.line && c.col == cur.col && c.shape
            == cur.shape,
{
}

} // verus!

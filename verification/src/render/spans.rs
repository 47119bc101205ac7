//! The rich-text spans that the text renderer lays out for a grid of styled
//! cells: runs of cells that look alike are merged into one span, trailing
//! blanks are dropped, and rows are separated by newlines.

use vstd::prelude::*;

use crate::render::grid::StyledCell;
use crate::text::push_char;

verus! {

/// A run of text drawn in one color and style.
#[derive(Debug, PartialEq, Eq)]
pub struct TextSpan {
    pub text: String,
    pub color: (u8, u8, u8),
    pub bold: bool,
    pub italic: bool,
}

/// The value of a [`TextSpan`].
pub struct TextSpanView {
    pub text: Seq<char>,
    pub color: (u8, u8, u8),
    pub bold: bool,
    pub italic: bool,
}

impl View for TextSpan {
    type V = TextSpanView;

    open spec fn view(&self) -> TextSpanView {
        TextSpanView { text: self.text@, color: self.color, bold: self.bold, italic: self.italic }
    }
}

pub open spec fn spans_view(v: Seq<TextSpan>) -> Seq<TextSpanView> {
    v.map_values(|s: TextSpan| s@)
}

/// A row without its trailing blank cells.
pub open spec fn trimmed(row: Seq<StyledCell>) -> Seq<StyledCell>
    decreases row.len(),
{
    if row.len() > 0 && row.last().c == ' ' {
        trimmed(row.drop_last())
    } else {
        row
    }
}

/// Two cells are drawn alike: same color, weight and slant.
pub open spec fn same_style(a: StyledCell, b: StyledCell) -> bool {
    a.fg == b.fg && a.bold == b.bold && a.italic == b.italic
}

/// The span of one cell.
pub open spec fn cell_span(c: StyledCell) -> TextSpanView {
    TextSpanView { text: seq![c.c], color: c.fg, bold: c.bold, italic: c.italic }
}

/// The spans of the cells of a row: each run of cells drawn alike is one
/// span.
pub open spec fn row_spans(row: Seq<StyledCell>) -> Seq<TextSpanView>
    decreases row.len(),
{
    if row.len() == 0 {
        seq![]
    } else {
        let r = row_spans(row.drop_last());
        let c = row.last();
        if row.len() > 1 && same_style(row[row.len() - 2], c) {
            r.update(r.len() - 1, TextSpanView { text: r.last().text.push(c.c), ..r.last() })
        } else {
            r.push(cell_span(c))
        }
    }
}

/// The newline between two rows, in the default color.
pub open spec fn newline_span(default_fg: (u8, u8, u8)) -> TextSpanView {
    TextSpanView { text: seq!['\n'], color: default_fg, bold: false, italic: false }
}

/// The spans of a grid: the spans of each row without its trailing blanks,
/// with a newline between rows.
pub open spec fn styled_spans_spec(rows: Seq<Seq<StyledCell>>, default_fg: (u8, u8, u8)) -> Seq<
    TextSpanView,
>
    decreases rows.len(),
{
    if rows.len() == 0 {
        seq![]
    } else {
        let before = styled_spans_spec(rows.drop_last(), default_fg);
        let sep = if rows.len() > 1 {
            before.push(newline_span(default_fg))
        } else {
            before
        };
        sep + row_spans(trimmed(rows.last()))
    }
}

proof fn lemma_row_spans_nonempty(row: Seq<StyledCell>)
    ensures
        row.len() > 0 ==> row_spans(row).len() > 0,
    decreases row.len(),
{
    if row.len() > 0 {
        lemma_row_spans_nonempty(row.drop_last());
    }
}

/// The length of a row without its trailing blanks.
fn trimmed_len(row: &Vec<StyledCell>) -> (n: usize)
    ensures
        n <= row@.len(),
        trimmed(row@) == row@.take(n as int),
{
    let mut n = row.len();
    assert(row@.take(n as int) =~= row@);
    while n > 0 && row[n - 1].c == ' '
        invariant
            n <= row@.len(),
            trimmed(row@) == trimmed(row@.take(n as int)),
        decreases n,
    {
        assert(row@.take(n as int).drop_last() =~= row@.take(n - 1));
        n -= 1;
    }
    n
}

fn same_style_exec(a: &StyledCell, b: &StyledCell) -> (r: bool)
    ensures
        r == same_style(*a, *b),
{
    a.fg.0 == b.fg.0 && a.fg.1 == b.fg.1 && a.fg.2 == b.fg.2 && a.bold == b.bold && a.italic
        == b.italic
}

/// The spans that the text renderer lays out for `rows`: runs of cells of
/// the same color, weight and slant merged into one span, trailing spaces
/// of each row dropped, and a newline span in `default_fg` between rows.
pub fn styled_spans(rows: &Vec<Vec<StyledCell>>, default_fg: (u8, u8, u8)) -> (spans: Vec<
    TextSpan,
>)
    ensures
        spans_view(spans@) == styled_spans_spec(rows@.map_values(|r: Vec<StyledCell>| r@), default_fg),
{
    let ghost grid = rows@.map_values(|r: Vec<StyledCell>| r@);
    let mut spans: Vec<TextSpan> = Vec::new();
    assert(grid.take(0) =~= Seq::<Seq<StyledCell>>::empty());
    for i in 0..rows.len()
        invariant
            grid == rows@.map_values(|r: Vec<StyledCell>| r@),
            spans_view(spans@) == styled_spans_spec(grid.take(i as int), default_fg),
    {
        assert(grid.take(i + 1).drop_last() =~= grid.take(i as int));
        assert(grid.take(i + 1).last() == rows@[i as int]@);
        if i > 0 {
            let mut nl = String::new();
            push_char(&mut nl, '\n');
            let ghost before = spans_view(spans@);
            spans.push(TextSpan { text: nl, color: default_fg, bold: false, italic: false });
            assert(spans_view(spans@) =~= before.push(newline_span(default_fg)));
        }
        let row = &rows[i];
        let t = trimmed_len(row);
        let ghost base = spans_view(spans@);
        let ghost cells = row@.take(t as int);
        assert(base + row_spans(cells.take(0)) =~= base);
        for j in 0..t
            invariant
                t <= row@.len(),
                cells == row@.take(t as int),
                spans_view(spans@) == base + row_spans(cells.take(j as int)),
        {
            let ghost pre = spans_view(spans@);
            let ghost prev = row_spans(cells.take(j as int));
            assert(cells.take(j + 1).drop_last() =~= cells.take(j as int));
            assert(cells.take(j + 1).last() == row@[j as int]);
            if j > 0 && same_style_exec(&row[j - 1], &row[j]) {
                assert(cells.take(j + 1)[j - 1] == row@[j - 1]);
                proof {
                    lemma_row_spans_nonempty(cells.take(j as int));
                }
                assert(spans@.len() == pre.len());
                assert(pre.len() > 0);
                let ghost old_spans = spans@;
                let mut last = spans.pop().unwrap();
                assert(last == old_spans.last());
                assert(pre.last() == prev.last());
                push_char(&mut last.text, row[j].c);
                spans.push(last);
                assert(spans_view(spans@) =~= pre.update(
                    pre.len() - 1,
                    TextSpanView { text: prev.last().text.push(row@[j as int].c), ..prev.last() },
                ));
                assert(spans_view(spans@) =~= base + row_spans(cells.take(j + 1)));
            } else {
                let mut text = String::new();
                push_char(&mut text, row[j].c);
                let cell = row[j];
                assert(text@ =~= seq![cell.c]);
                if j > 0 {
                    assert(cells.take(j + 1)[j - 1] == row@[j - 1]);
                }
                assert(row_spans(cells.take(j + 1)) == prev.push(cell_span(cell)));
                let span = TextSpan { text, color: cell.fg, bold: cell.bold, italic: cell.italic };
                assert(span@ == cell_span(cell));
                spans.push(span);
                assert(spans_view(spans@) =~= pre.push(cell_span(cell)));
                assert(spans_view(spans@) =~= base + row_spans(cells.take(j + 1)));
            }
        }
        assert(cells.take(t as int) =~= cells);
    }
    assert(grid.take(rows@.len() as int) =~= grid);
    spans
}

} // verus!

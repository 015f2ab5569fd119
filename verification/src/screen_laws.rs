//! What holds of the lines that show the screen of the tmux client.

use crate::layout::Rect;
use crate::screen::{
    cell_at, cell_style, cursor_in_pane, drawn_color, extend_last,
    law_line_shows_the_text_of_its_cells, row_cells, row_spans, screen_lines, CellColor, CellView,
};
use crate::styled::{text_of, Color, SpanView, Style};
use vstd::prelude::*;

verus! {

/// Whether text is drawn in a color of a cell: in none if the cell leaves the color to the
/// terminal, and else in that very color.
pub open spec fn shows_color(drawn: Option<Color>, color: CellColor) -> bool {
    match color {
        CellColor::Default => drawn is None,
        CellColor::Idx(index) => drawn == Some(Color::Indexed(index)),
        CellColor::Rgb(red, green, blue) => drawn == Some(Color::Rgb(red, green, blue)),
    }
}

/// Whether text in a style has the look of a cell.
pub open spec fn has_look_of(style: Style, cell: CellView) -> bool {
    &&& shows_color(style.fg, cell.fgcolor)
    &&& shows_color(style.bg, cell.bgcolor)
    &&& style.bold == cell.bold
    &&& style.italic == cell.italic
    &&& style.underlined == cell.underline
    &&& style.reversed == cell.inverse
}

/// A cell is drawn with its own look: both colors, and all of bold, italic, underlined and
/// reversed.
pub proof fn law_cell_is_drawn_with_its_look(cell: CellView)
    ensures
        has_look_of(cell_style(cell), cell),
{
}

/// Cells of different looks are drawn in different styles, and cells of one look in one.
pub proof fn law_looks_are_told_apart(a: CellView, b: CellView)
    ensures
        (cell_style(a) == cell_style(b)) == (a.fgcolor == b.fgcolor && a.bgcolor == b.bgcolor
            && a.bold == b.bold && a.italic == b.italic && a.underline == b.underline && a.inverse
            == b.inverse),
{
}

/// The colors to draw with are the ones that were asked for.
pub proof fn law_colors_are_kept(color: CellColor)
    ensures
        match color {
            CellColor::Default => drawn_color(color) == Color::Reset,
            CellColor::Idx(index) => drawn_color(color) == Color::Indexed(index),
            CellColor::Rgb(red, green, blue) => drawn_color(color) == Color::Rgb(red, green, blue),
        },
{
}

/// The styles of the characters of a line, one for each.
pub open spec fn styles_of(line: Seq<SpanView>) -> Seq<Style>
    decreases line.len(),
{
    if line.len() == 0 {
        Seq::empty()
    } else {
        styles_of(line.drop_last()) + Seq::new(
            line.last().content.len(),
            |i: int| line.last().style,
        )
    }
}

proof fn lemma_styles_len(line: Seq<SpanView>)
    ensures
        styles_of(line).len() == text_of(line).len(),
    decreases line.len(),
{
    if line.len() > 0 {
        lemma_styles_len(line.drop_last());
    }
}

proof fn lemma_extended_styles(line: Seq<SpanView>, text: Seq<char>)
    requires
        line.len() > 0,
    ensures
        styles_of(extend_last(line, text)) == styles_of(line) + Seq::new(
            text.len(),
            |i: int| line.last().style,
        ),
{
    let after = extend_last(line, text);
    assert(after.drop_last() =~= line.drop_last());
    assert(styles_of(after) =~= styles_of(line) + Seq::new(
        text.len(),
        |i: int| line.last().style,
    ));
}

/// What a cell adds to the text of its row.
pub open spec fn shown_by(cell: Option<CellView>) -> Seq<char> {
    match cell {
        None => seq![' '],
        Some(cell) => if cell.wide_continuation {
            Seq::empty()
        } else if cell.has_contents {
            cell.contents
        } else {
            seq![' ']
        },
    }
}

/// A row shows what its cells hold, one after the other: an empty or missing cell a blank, and
/// the second half of a wide character nothing.
pub proof fn law_row_shows_cell_after_cell(cells: Seq<Option<CellView>>, cell: Option<CellView>)
    ensures
        text_of(row_spans(cells.push(cell))) == text_of(row_spans(cells)) + shown_by(cell),
        text_of(row_spans(Seq::empty())).len() == 0,
{
    law_line_shows_the_text_of_its_cells(cells);
    law_line_shows_the_text_of_its_cells(cells.push(cell));
    law_line_shows_the_text_of_its_cells(Seq::empty());
    assert(cells.push(cell).drop_last() =~= cells);
}

proof fn lemma_later_cells_keep(cells: Seq<Option<CellView>>, n: int)
    requires
        0 <= n <= cells.len(),
    ensures
        ({
            let before = row_spans(cells.take(n));
            let line = row_spans(cells);
            &&& text_of(before).len() <= text_of(line).len()
            &&& styles_of(before).len() == text_of(before).len()
            &&& styles_of(line).len() == text_of(line).len()
            &&& forall|p: int|
                #![trigger text_of(line)[p]]
                0 <= p < text_of(before).len() ==> text_of(line)[p] == text_of(before)[p]
                    && styles_of(line)[p] == styles_of(before)[p]
        }),
    decreases cells.len() - n,
{
    lemma_styles_len(row_spans(cells.take(n)));
    lemma_styles_len(row_spans(cells));
    if n == cells.len() {
        assert(cells.take(n) =~= cells);
    } else {
        lemma_later_cells_keep(cells, n + 1);
        let before = row_spans(cells.take(n));
        let next = row_spans(cells.take(n + 1));
        assert(cells.take(n + 1) =~= cells.take(n).push(cells[n]));
        law_row_shows_cell_after_cell(cells.take(n), cells[n]);
        lemma_cell_adds_its_style(cells.take(n), cells[n]);
        lemma_styles_len(next);
        let line = row_spans(cells);
        assert forall|p: int|
            #![trigger text_of(line)[p]]
            0 <= p < text_of(before).len() implies text_of(line)[p] == text_of(before)[p]
                && styles_of(line)[p] == styles_of(before)[p] by {
            assert(text_of(line)[p] == text_of(next)[p]);
            assert(text_of(next)[p] == text_of(before)[p]);
            assert(styles_of(next)[p] == styles_of(before)[p]);
        }
    }
}

proof fn lemma_cell_adds_its_style(cells: Seq<Option<CellView>>, cell: Option<CellView>)
    ensures
        ({
            let before = row_spans(cells);
            let after = row_spans(cells.push(cell));
            &&& styles_of(after).len() == styles_of(before).len() + shown_by(cell).len()
            &&& forall|p: int|
                0 <= p < styles_of(before).len() ==> #[trigger] styles_of(after)[p] == styles_of(
                    before,
                )[p]
            &&& forall|p: int|
                styles_of(before).len() <= p < styles_of(after).len() ==> (
                #[trigger] styles_of(after)[p] == match cell {
                    Some(cell) => cell_style(cell),
                    None => if before.len() > 0 {
                        before.last().style
                    } else {
                        Style::plain()
                    },
                })
        }),
{
    let before = row_spans(cells);
    let after = row_spans(cells.push(cell));
    assert(cells.push(cell).drop_last() =~= cells);
    let text = shown_by(cell);
    if before.len() > 0 {
        lemma_extended_styles(before, text);
    }
    assert(after.len() > before.len() ==> after.drop_last() =~= before);
    let style = match cell {
        Some(cell) => cell_style(cell),
        None => if before.len() > 0 {
            before.last().style
        } else {
            Style::plain()
        },
    };
    assert(styles_of(after) =~= styles_of(before) + Seq::new(text.len(), |i: int| style));
}

/// Each character of a drawn row stands where its cell puts it, and has the look of that cell.
pub proof fn law_character_has_the_look_of_its_cell(
    cells: Seq<Option<CellView>>,
    n: int,
    cell: CellView,
    i: int,
)
    requires
        0 <= n < cells.len(),
        cells[n] == Some(cell),
        !cell.wide_continuation,
        0 <= i < shown_by(Some(cell)).len(),
    ensures
        ({
            let line = row_spans(cells);
            let at = text_of(row_spans(cells.take(n))).len() + i;
            &&& at < text_of(line).len()
            &&& text_of(line)[at] == shown_by(Some(cell))[i]
            &&& styles_of(line).len() == text_of(line).len()
            &&& has_look_of(styles_of(line)[at], cell)
        }),
{
    let before = row_spans(cells.take(n));
    let next = row_spans(cells.take(n + 1));
    let at = text_of(before).len() + i;
    assert(cells.take(n + 1) =~= cells.take(n).push(cells[n]));
    law_row_shows_cell_after_cell(cells.take(n), cells[n]);
    lemma_cell_adds_its_style(cells.take(n), cells[n]);
    lemma_later_cells_keep(cells, n + 1);
    lemma_styles_len(before);
    law_cell_is_drawn_with_its_look(cell);
    assert(text_of(next)[at] == shown_by(Some(cell))[i]);
    assert(text_of(row_spans(cells))[at] == text_of(next)[at]);
}

/// A screen is drawn row by row, each from the cells that the screen has in that row, as far as
/// the pane reaches.
pub proof fn law_screen_is_drawn_row_by_row(
    screen: vt100::Screen,
    width: nat,
    height: nat,
    row: int,
    cells: Seq<Option<CellView>>,
)
    requires
        0 <= row < height,
        cells.len() == width,
        forall|col: int| 0 <= col < width ==> #[trigger] cells[col] == cell_at(screen, row, col),
    ensures
        screen_lines(screen, width, height).len() == height,
        screen_lines(screen, width, height)[row] == row_spans(cells),
{
    assert(row_cells(screen, row, width) =~= cells);
}

/// The cursor is shown where it is in the pane, if it is not hidden and lies within.
pub proof fn law_cursor_is_shown_in_its_cell(hidden: bool, at: (u16, u16), pane: Rect)
    requires
        pane.x + pane.width <= 0xffff,
        pane.y + pane.height <= 0xffff,
    ensures
        match cursor_in_pane(hidden, at, pane) {
            Some((column, row)) => !hidden && at.1 < pane.width && at.0 < pane.height && column
                == pane.x + at.1 && row == pane.y + at.0,
            None => hidden || at.1 >= pane.width || at.0 >= pane.height,
        },
{
}

} // verus!

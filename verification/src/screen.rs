//! The screen of the embedded tmux client, as styled lines of text.

use crate::layout::Rect;
use crate::styled::{line_views, text_of, Color, Line, Span, SpanView, Style};
use vstd::prelude::*;

verus! {

/// The screen that a `vt100` parser keeps.
#[verifier::external_type_specification]
#[verifier::external_body]
pub struct ExScreen(vt100::Screen);

/// A color as the embedded client asked for it.
#[derive(Clone, Copy, Debug, PartialEq, Eq, Structural)]
pub enum CellColor {
    Default,
    Idx(u8),
    Rgb(u8, u8, u8),
}

/// One cell of a screen.
#[derive(Clone, Debug, PartialEq, Eq)]
pub struct ScreenCell {
    pub contents: String,
    pub has_contents: bool,
    /// Whether this is the second half of a wide character.
    pub wide_continuation: bool,
    pub fgcolor: CellColor,
    pub bgcolor: CellColor,
    pub bold: bool,
    pub italic: bool,
    pub underline: bool,
    pub inverse: bool,
}

pub struct CellView {
    pub contents: Seq<char>,
    pub has_contents: bool,
    pub wide_continuation: bool,
    pub fgcolor: CellColor,
    pub bgcolor: CellColor,
    pub bold: bool,
    pub italic: bool,
    pub underline: bool,
    pub inverse: bool,
}

impl View for ScreenCell {
    type V = CellView;

    open spec fn view(&self) -> CellView {
        CellView {
            contents: self.contents@,
            has_contents: self.has_contents,
            wide_continuation: self.wide_continuation,
            fgcolor: self.fgcolor,
            bgcolor: self.bgcolor,
            bold: self.bold,
            italic: self.italic,
            underline: self.underline,
            inverse: self.inverse,
        }
    }
}

/// The cells of a screen, by row and column.
pub uninterp spec fn screen_cells(screen: vt100::Screen) -> Map<(int, int), CellView>;

/// The row and the column of the cursor of a screen.
pub uninterp spec fn screen_cursor(screen: vt100::Screen) -> (u16, u16);

/// Whether a screen hides its cursor.
pub uninterp spec fn screen_hides_cursor(screen: vt100::Screen) -> bool;

/// How many rows a screen is scrolled back.
pub uninterp spec fn screen_scroll(screen: vt100::Screen) -> nat;

/// How many rows and columns a screen has.
pub uninterp spec fn screen_size(screen: vt100::Screen) -> (u16, u16);

/// Whether the cells of a screen can be asked for: a screen must not be scrolled back by more
/// rows than it has.
pub open spec fn is_readable(screen: vt100::Screen) -> bool {
    screen_scroll(screen) <= screen_size(screen).0
}

/// The cell of a screen at a row and a column, if there is one.
pub open spec fn cell_at(screen: vt100::Screen, row: int, col: int) -> Option<CellView> {
    if screen_cells(screen).contains_key((row, col)) {
        Some(screen_cells(screen)[(row, col)])
    } else {
        None
    }
}

pub open spec fn cell_view(cell: Option<ScreenCell>) -> Option<CellView> {
    match cell {
        Some(cell) => Some(cell@),
        None => None,
    }
}

pub open spec fn cell_views(cells: Seq<Option<ScreenCell>>) -> Seq<Option<CellView>> {
    cells.map_values(|cell: Option<ScreenCell>| cell_view(cell))
}

/// Calls [`vt100::Screen::scrollback`]: how many rows the screen is scrolled back.
#[verifier::external_body]
fn screen_scrollback(screen: &vt100::Screen) -> (rows: usize)
    ensures
        rows == screen_scroll(*screen),
{
    screen.scrollback()
}

/// Calls [`vt100::Screen::size`]: how many rows and columns the screen has.
#[verifier::external_body]
fn screen_rows_and_cols(screen: &vt100::Screen) -> (size: (u16, u16))
    ensures
        size == screen_size(*screen),
{
    screen.size()
}

/// Calls [`vt100::Screen::cell`], and on the cell that it gives [`vt100::Cell::contents`] and
/// the other accessors. There is a cell exactly where the screen has one, and it is that one.
/// On a screen that is scrolled back by more rows than it has, the call would overflow.
#[verifier::external_body]
fn screen_cell(screen: &vt100::Screen, row: u16, col: u16) -> (cell: Option<ScreenCell>)
    requires
        is_readable(*screen),
    ensures
        cell is Some == screen_cells(*screen).contains_key((row as int, col as int)),
        cell matches Some(found) ==> found@ == screen_cells(*screen)[(row as int, col as int)],
{
    let color = |color: vt100::Color| match color {
        vt100::Color::Default => CellColor::Default,
        vt100::Color::Idx(index) => CellColor::Idx(index),
        vt100::Color::Rgb(red, green, blue) => CellColor::Rgb(red, green, blue),
    };
    screen.cell(row, col).map(|cell| ScreenCell {
        contents: cell.contents(), has_contents: cell.has_contents(),
        wide_continuation: cell.is_wide_continuation(),
        fgcolor: color(cell.fgcolor()), bgcolor: color(cell.bgcolor()),
        bold: cell.bold(), italic: cell.italic(),
        underline: cell.underline(), inverse: cell.inverse(),
    })
}

/// Calls [`vt100::Screen::cursor_position`]: the row and the column of the cursor.
#[verifier::external_body]
fn screen_cursor_position(screen: &vt100::Screen) -> (at: (u16, u16))
    ensures
        at == screen_cursor(*screen),
{
    screen.cursor_position()
}

/// Calls [`vt100::Screen::hide_cursor`]: whether the cursor is hidden.
#[verifier::external_body]
fn screen_hide_cursor(screen: &vt100::Screen) -> (hidden: bool)
    ensures
        hidden == screen_hides_cursor(*screen),
{
    screen.hide_cursor()
}

pub open spec fn drawn_color(color: CellColor) -> Color {
    match color {
        CellColor::Default => Color::Reset,
        CellColor::Idx(index) => Color::Indexed(index),
        CellColor::Rgb(red, green, blue) => Color::Rgb(red, green, blue),
    }
}

/// The color to draw with.
pub fn vt100_color_to_ratatui(color: CellColor) -> (drawn: Color)
    ensures
        drawn == drawn_color(color),
{
    match color {
        CellColor::Default => Color::Reset,
        CellColor::Idx(index) => Color::Indexed(index),
        CellColor::Rgb(red, green, blue) => Color::Rgb(red, green, blue),
    }
}

/// The style that a cell is drawn in. A default color is left to the terminal.
pub open spec fn cell_style(cell: CellView) -> Style {
    Style {
        fg: if cell.fgcolor is Default {
            None
        } else {
            Some(drawn_color(cell.fgcolor))
        },
        bg: if cell.bgcolor is Default {
            None
        } else {
            Some(drawn_color(cell.bgcolor))
        },
        bold: cell.bold,
        italic: cell.italic,
        underlined: cell.underline,
        reversed: cell.inverse,
    }
}

/// The style that a cell is drawn in.
pub fn style_from_cell(cell: &ScreenCell) -> (style: Style)
    ensures
        style == cell_style(cell@),
{
    let mut style = Style::default();
    match cell.fgcolor {
        CellColor::Default => {},
        color => {
            style.fg = Some(vt100_color_to_ratatui(color));
        },
    }
    match cell.bgcolor {
        CellColor::Default => {},
        color => {
            style.bg = Some(vt100_color_to_ratatui(color));
        },
    }
    style.bold = cell.bold;
    style.italic = cell.italic;
    style.underlined = cell.underline;
    style.reversed = cell.inverse;
    style
}

/// What a cell shows: an empty one a blank.
pub open spec fn cell_text(cell: CellView) -> Seq<char> {
    if cell.has_contents {
        cell.contents
    } else {
        seq![' ']
    }
}

/// Spans with more text at the end, in the style of the last one.
pub open spec fn extend_last(spans: Seq<SpanView>, text: Seq<char>) -> Seq<SpanView> {
    spans.update(
        spans.len() - 1,
        SpanView { content: spans.last().content + text, style: spans.last().style },
    )
}

/// The spans of a row of cells. Neighbors of one style share a span. The second half of a wide
/// character adds nothing, and a cell that is missing a blank, in the style before it.
pub open spec fn row_spans(cells: Seq<Option<CellView>>) -> Seq<SpanView>
    decreases cells.len(),
{
    if cells.len() == 0 {
        Seq::empty()
    } else {
        let before = row_spans(cells.drop_last());
        match cells.last() {
            None => if before.len() > 0 {
                extend_last(before, seq![' '])
            } else {
                seq![SpanView { content: seq![' '], style: Style::plain() }]
            },
            Some(cell) => if cell.wide_continuation {
                before
            } else if before.len() > 0 && before.last().style == cell_style(cell) {
                extend_last(before, cell_text(cell))
            } else {
                before.push(SpanView { content: cell_text(cell), style: cell_style(cell) })
            },
        }
    }
}

pub open spec fn span_views(spans: Seq<Span>) -> Seq<SpanView> {
    spans.map_values(|span: Span| span@)
}

fn append_to_last(spans: &mut Vec<Span>, text: &str)
    requires
        old(spans)@.len() > 0,
    ensures
        span_views(final(spans)@) == extend_last(span_views(old(spans)@), text@),
{
    match spans.pop() {
        Some(mut last) => {
            last.content.append(text);
            spans.push(last);
        },
        None => {},
    }
    assert(span_views(spans@) =~= extend_last(span_views(old(spans)@), text@));
}

fn push_span(spans: &mut Vec<Span>, content: String, style: Style)
    ensures
        span_views(final(spans)@) == span_views(old(spans)@).push(
            SpanView { content: content@, style },
        ),
{
    spans.push(Span { content, style });
    assert(span_views(spans@) =~= span_views(old(spans)@).push(
        SpanView { content: content@, style },
    ));
}

/// Draws a row of cells.
pub fn row_to_line(cells: &Vec<Option<ScreenCell>>) -> (line: Line)
    ensures
        line@ == row_spans(cell_views(cells@)),
{
    let ghost all = cell_views(cells@);
    let mut spans: Vec<Span> = Vec::new();
    let mut i: usize = 0;
    assert(span_views(spans@) =~= row_spans(all.take(0)));
    while i < cells.len()
        invariant
            i <= cells@.len(),
            all == cell_views(cells@),
            span_views(spans@) == row_spans(all.take(i as int)),
        decreases cells@.len() - i,
    {
        proof {
            reveal_strlit(" ");
            assert(" "@ =~= seq![' ']);
            assert(all.take(i + 1).drop_last() =~= all.take(i as int));
            assert(all.take(i + 1).last() == cell_view(cells@[i as int]));
            assert(span_views(spans@).len() == spans@.len());
        }
        match &cells[i] {
            None => {
                if spans.len() > 0 {
                    append_to_last(&mut spans, " ");
                } else {
                    assert(span_views(spans@) =~= Seq::empty());
                    push_span(&mut spans, " ".to_owned(), Style::default());
                    assert(span_views(spans@) =~= seq![
                        SpanView { content: seq![' '], style: Style::plain() },
                    ]);
                }
            },
            Some(cell) => {
                if !cell.wide_continuation {
                    let style = style_from_cell(cell);
                    let text = if cell.has_contents {
                        cell.contents.clone()
                    } else {
                        " ".to_owned()
                    };
                    if spans.len() > 0 && spans[spans.len() - 1].style == style {
                        append_to_last(&mut spans, text.as_str());
                    } else {
                        push_span(&mut spans, text, style);
                    }
                }
            },
        }
        i = i + 1;
    }
    assert(all.take(i as int) =~= all);
    Line { spans }
}

/// The cells of a row of a screen, as far as a width reaches.
pub open spec fn row_cells(screen: vt100::Screen, row: int, width: nat) -> Seq<Option<CellView>> {
    Seq::new(width, |col: int| cell_at(screen, row, col))
}

/// The lines that show a screen in a pane of the given size.
pub open spec fn screen_lines(screen: vt100::Screen, width: nat, height: nat) -> Seq<
    Seq<SpanView>,
> {
    Seq::new(height, |row: int| row_spans(row_cells(screen, row, width)))
}

fn screen_row(screen: &vt100::Screen, row: u16, width: u16) -> (cells: Vec<Option<ScreenCell>>)
    requires
        is_readable(*screen),
    ensures
        cell_views(cells@) == row_cells(*screen, row as int, width as nat),
{
    let mut cells: Vec<Option<ScreenCell>> = Vec::new();
    let mut col: u16 = 0;
    while col < width
        invariant
            is_readable(*screen),
            col <= width,
            cells@.len() == col,
            forall|i: int|
                0 <= i < col ==> cell_view(#[trigger] cells@[i]) == cell_at(
                    *screen,
                    row as int,
                    i,
                ),
        decreases width - col,
    {
        cells.push(screen_cell(screen, row, col));
        col = col + 1;
    }
    assert(cell_views(cells@) =~= row_cells(*screen, row as int, width as nat));
    cells
}

/// Draws a screen in a pane of the given size.
pub fn screen_to_lines(screen: &vt100::Screen, width: u16, height: u16) -> (lines: Vec<Line>)
    requires
        is_readable(*screen),
    ensures
        line_views(lines@) == screen_lines(*screen, width as nat, height as nat),
{
    let mut lines: Vec<Line> = Vec::new();
    let mut row: u16 = 0;
    while row < height
        invariant
            is_readable(*screen),
            row <= height,
            lines@.len() == row,
            forall|i: int|
                0 <= i < row ==> (#[trigger] lines@[i])@ == row_spans(
                    row_cells(*screen, i, width as nat),
                ),
        decreases height - row,
    {
        let cells = screen_row(screen, row, width);
        lines.push(row_to_line(&cells));
        row = row + 1;
    }
    assert(line_views(lines@) =~= screen_lines(*screen, width as nat, height as nat));
    lines
}

/// Draws a screen in a pane of the given size, if its cells can be asked for.
pub fn readable_screen_to_lines(screen: &vt100::Screen, width: u16, height: u16) -> (lines: Option<
    Vec<Line>,
>)
    ensures
        lines is Some == is_readable(*screen),
        lines matches Some(lines) ==> line_views(lines@) == screen_lines(
            *screen,
            width as nat,
            height as nat,
        ),
{
    let (rows, _) = screen_rows_and_cols(screen);
    if screen_scrollback(screen) <= rows as usize {
        Some(screen_to_lines(screen, width, height))
    } else {
        None
    }
}

/// Where in a pane a cursor is to be shown, if it is to be and lies within.
pub open spec fn cursor_in_pane(hidden: bool, at: (u16, u16), pane: Rect) -> Option<(u16, u16)> {
    if hidden || at.0 >= pane.height || at.1 >= pane.width {
        None
    } else {
        Some((capped_sum(pane.x, at.1), capped_sum(pane.y, at.0)))
    }
}

/// The sum of two coordinates, or the largest one there is.
pub open spec fn capped_sum(a: u16, b: u16) -> u16 {
    if a + b > u16::MAX {
        u16::MAX
    } else {
        (a + b) as u16
    }
}

/// Where in a pane the cursor at a row and a column is to be shown.
pub fn pane_cursor(hidden: bool, at: (u16, u16), pane: Rect) -> (shown: Option<(u16, u16)>)
    ensures
        shown == cursor_in_pane(hidden, at, pane),
{
    if pane.width == 0 || pane.height == 0 || hidden {
        return None;
    }
    let (row, col) = at;
    if row >= pane.height || col >= pane.width {
        return None;
    }
    Some((pane.x.saturating_add(col), pane.y.saturating_add(row)))
}

/// Where on the outer screen the cursor of a screen is to be shown.
pub fn visible_cursor_position(screen: &vt100::Screen, pane: Rect) -> (shown: Option<(u16, u16)>)
    ensures
        shown == cursor_in_pane(screen_hides_cursor(*screen), screen_cursor(*screen), pane),
{
    pane_cursor(screen_hide_cursor(screen), screen_cursor_position(screen), pane)
}

/// What the cells of a row show, one after the other.
pub open spec fn row_text(cells: Seq<Option<CellView>>) -> Seq<char>
    decreases cells.len(),
{
    if cells.len() == 0 {
        Seq::empty()
    } else {
        row_text(cells.drop_last()) + match cells.last() {
            None => seq![' '],
            Some(cell) => if cell.wide_continuation {
                Seq::empty()
            } else {
                cell_text(cell)
            },
        }
    }
}

/// A line shows the text of its cells, all of it and in order.
pub proof fn law_line_shows_the_text_of_its_cells(cells: Seq<Option<CellView>>)
    ensures
        text_of(row_spans(cells)) == row_text(cells),
    decreases cells.len(),
{
    if cells.len() > 0 {
        let before = row_spans(cells.drop_last());
        let after = row_spans(cells);
        law_line_shows_the_text_of_its_cells(cells.drop_last());
        assert(after.len() > before.len() ==> after.drop_last() =~= before);
        assert(after.len() == before.len() && after.len() > 0 ==> after.drop_last()
            =~= before.drop_last());
        assert(text_of(after) =~= row_text(cells));
    }
}

/// Neighboring spans of a line differ in style: a run of one style is one span.
pub proof fn law_neighboring_spans_differ_in_style(cells: Seq<Option<CellView>>, i: int)
    requires
        0 <= i < row_spans(cells).len() - 1,
    ensures
        row_spans(cells)[i].style != row_spans(cells)[i + 1].style,
    decreases cells.len(),
{
    let before = row_spans(cells.drop_last());
    if i < before.len() - 1 {
        law_neighboring_spans_differ_in_style(cells.drop_last(), i);
    }
}

} // verus!

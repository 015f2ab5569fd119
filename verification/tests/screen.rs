use vmux::layout::Rect;
use vmux::screen::{
    pane_cursor, readable_screen_to_lines, row_to_line, screen_to_lines, visible_cursor_position,
    CellColor, ScreenCell,
};
use vmux::styled::{Color, Style};
use vt100::Parser;

fn text_of(line: &vmux::styled::Line) -> String {
    line.spans.iter().map(|span| span.content.as_str()).collect()
}

fn cell(contents: &str) -> ScreenCell {
    ScreenCell {
        contents: contents.to_string(),
        has_contents: !contents.is_empty(),
        wide_continuation: false,
        fgcolor: CellColor::Default,
        bgcolor: CellColor::Default,
        bold: false,
        italic: false,
        underline: false,
        inverse: false,
    }
}

#[test]
fn screen_to_lines_preserves_ansi_colors() {
    let mut parser = Parser::new(1, 2, 0);
    parser.process(b"\x1b[1;38;5;196;48;2;10;20;30mX\x1b[0mY");

    let lines = screen_to_lines(parser.screen(), 2, 1);
    let first = &lines[0].spans[0];
    assert_eq!(first.content, "X");
    assert_eq!(first.style.fg, Some(Color::Indexed(196)));
    assert_eq!(first.style.bg, Some(Color::Rgb(10, 20, 30)));
    assert!(first.style.bold);

    let second = &lines[0].spans[1];
    assert_eq!(second.content, "Y");
    assert_eq!(second.style, Style::default());
}

#[test]
fn parser_resize_preserves_screen_contents() {
    let mut parser = Parser::new(1, 4, 0);
    parser.process(b"ABCD");
    parser.set_size(2, 6);

    let contents = parser.screen().contents_formatted();
    assert!(
        contents.windows(4).any(|window| window == b"ABCD"),
        "resize should preserve the rendered buffer"
    );
    let lines = screen_to_lines(parser.screen(), 6, 2);
    assert_eq!(text_of(&lines[0]), "ABCD  ");
    assert_eq!(text_of(&lines[1]), "      ");
}

#[test]
fn visible_cursor_position_tracks_tmux_cursor_visibility() {
    let mut parser = Parser::new(4, 8, 0);
    parser.process(b"ab\x1b[2;3H");
    assert_eq!(
        visible_cursor_position(
            parser.screen(),
            Rect { x: 10, y: 20, width: 8, height: 4 }
        ),
        Some((12, 21)),
    );

    parser.process(b"\x1b[?25l");
    assert_eq!(
        visible_cursor_position(
            parser.screen(),
            Rect { x: 10, y: 20, width: 8, height: 4 }
        ),
        None,
    );
}

#[test]
fn cursor_outside_the_pane_is_not_shown() {
    let pane = Rect { x: 3, y: 4, width: 5, height: 6 };
    assert_eq!(pane_cursor(false, (5, 4), pane), Some((7, 9)));
    assert_eq!(pane_cursor(false, (6, 4), pane), None);
    assert_eq!(pane_cursor(false, (5, 5), pane), None);
    assert_eq!(pane_cursor(true, (0, 0), pane), None);
    assert_eq!(
        pane_cursor(false, (0, 0), Rect { x: 3, y: 4, width: 0, height: 6 }),
        None
    );
    assert_eq!(
        pane_cursor(false, (0, 3), Rect { x: u16::MAX - 1, y: 0, width: 5, height: 6 }),
        Some((u16::MAX, 0))
    );
}

#[test]
fn lines_show_all_the_text_of_the_screen() {
    let mut parser = Parser::new(2, 6, 0);
    parser.process(b"a\x1b[4mbc\x1b[0;3md\x1b[7me\x1b[0m\r\n\x1b[31mxyz");
    let lines = screen_to_lines(parser.screen(), 6, 2);
    assert_eq!(lines.len(), 2);
    assert_eq!(text_of(&lines[0]), "abcde ");
    assert_eq!(text_of(&lines[1]), "xyz   ");
    assert!(lines[0].spans[1].style.underlined);
    assert_eq!(lines[0].spans[1].content, "bc");
    assert!(lines[0].spans[2].style.italic);
    assert!(lines[0].spans[3].style.reversed);
    assert_eq!(lines[1].spans[0].style.fg, Some(Color::Indexed(1)));
    for line in &lines {
        for pair in line.spans.windows(2) {
            assert_ne!(pair[0].style, pair[1].style);
        }
    }
}

#[test]
fn wide_characters_take_their_place_once() {
    let mut parser = Parser::new(1, 4, 0);
    parser.process("世a".as_bytes());
    let lines = screen_to_lines(parser.screen(), 4, 1);
    assert_eq!(text_of(&lines[0]), "世a ");
}

#[test]
fn cells_beyond_the_screen_are_blank() {
    let mut parser = Parser::new(1, 2, 0);
    parser.process(b"\x1b[1mhi");
    let lines = screen_to_lines(parser.screen(), 4, 2);
    assert_eq!(lines[0].spans.len(), 1);
    assert_eq!(lines[0].spans[0].content, "hi  ");
    assert!(lines[0].spans[0].style.bold);
    assert_eq!(lines[1].spans.len(), 1);
    assert_eq!(lines[1].spans[0].content, "    ");
    assert_eq!(lines[1].spans[0].style, Style::default());
}

#[test]
fn row_of_cells_is_cut_where_the_style_changes() {
    let mut bold = cell("b");
    bold.bold = true;
    let mut half = cell("");
    half.wide_continuation = true;
    let line = row_to_line(&vec![
        Some(cell("a")),
        Some(half),
        Some(bold),
        None,
        Some(cell("")),
    ]);
    assert_eq!(line.spans.len(), 3);
    assert_eq!(line.spans[0].content, "a");
    assert_eq!(line.spans[1].content, "b ");
    assert!(line.spans[1].style.bold);
    assert_eq!(line.spans[2].content, " ");
    assert_eq!(row_to_line(&Vec::new()).spans.len(), 0);
}

#[test]
fn screens_scrolled_back_too_far_are_not_drawn() {
    let mut parser = Parser::new(2, 3, 10);
    parser.process(b"a\r\nb\r\nc\r\nd\r\ne");
    let lines = readable_screen_to_lines(parser.screen(), 3, 2).unwrap();
    assert_eq!(text_of(&lines[0]), "d  ");
    assert_eq!(text_of(&lines[1]), "e  ");
    parser.set_scrollback(2);
    let lines = readable_screen_to_lines(parser.screen(), 3, 2).unwrap();
    assert_eq!(text_of(&lines[0]), "b  ");
    assert_eq!(text_of(&lines[1]), "c  ");
    parser.set_scrollback(3);
    assert!(readable_screen_to_lines(parser.screen(), 3, 2).is_none());
}

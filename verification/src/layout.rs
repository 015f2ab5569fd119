//! The rectangles that the screen is cut into.

use ratatui::layout::{Constraint, Direction, Layout, Rect as TerminalRect};
use vstd::prelude::*;

verus! {

/// A rectangle of terminal cells; `x` and `y` name its top left corner.
#[derive(Clone, Copy, Debug, PartialEq, Eq, Structural)]
pub struct Rect {
    pub x: u16,
    pub y: u16,
    pub width: u16,
    pub height: u16,
}

/// The direction along which an area is cut in two.
#[derive(Clone, Copy, Debug, PartialEq, Eq, Structural)]
pub enum Axis {
    Horizontal,
    Vertical,
}

/// How many cells of `length`, counted from `start`, have a coordinate below `u16::MAX`.
pub open spec fn reach_of(start: u16, length: u16) -> int {
    if start + length > u16::MAX {
        u16::MAX - start
    } else {
        length as int
    }
}

/// The size of the second of two parts that share `length` cells: `tail`, unless that would
/// leave the first part with fewer than `lead_min`.
pub open spec fn tail_size(length: int, lead_min: u16, tail: u16) -> int {
    if length - lead_min >= tail {
        tail as int
    } else if length > lead_min {
        length - lead_min
    } else {
        0
    }
}

/// `area` cut along `axis`: a leading part, and a trailing part of `tail` cells that shrinks
/// once the leading part would have fewer than `lead_min`.
pub open spec fn parts_of(axis: Axis, lead_min: u16, tail: u16, area: Rect) -> (Rect, Rect) {
    match axis {
        Axis::Horizontal => {
            let length = reach_of(area.x, area.width);
            let second = tail_size(length, lead_min, tail);
            let first = length - second;
            (
                Rect { width: first as u16, ..area },
                Rect { x: (area.x + first) as u16, width: second as u16, ..area },
            )
        },
        Axis::Vertical => {
            let length = reach_of(area.y, area.height);
            let second = tail_size(length, lead_min, tail);
            let first = length - second;
            (
                Rect { height: first as u16, ..area },
                Rect { y: (area.y + first) as u16, height: second as u16, ..area },
            )
        },
    }
}

/// `ratatui::layout::Layout::split` with the constraints `Min(lead_min)` and `Length(tail)`.
///
/// The claim: the two parts fill the area along the axis, side by side and at full breadth;
/// the second has `tail` cells, except that the minimum of the first has precedence over it.
#[verifier::external_body]
fn layout_split(axis: Axis, lead_min: u16, tail: u16, area: Rect) -> (parts: (Rect, Rect))
    requires
        lead_min <= i16::MAX,
    ensures
        parts == parts_of(axis, lead_min, tail, area),
{
    let direction = match axis {
        Axis::Horizontal => Direction::Horizontal,
        Axis::Vertical => Direction::Vertical,
    };
    let chunks = Layout::default()
        .direction(direction)
        .constraints([Constraint::Min(lead_min), Constraint::Length(tail)])
        .split(TerminalRect { x: area.x, y: area.y, width: area.width, height: area.height });
    (
        Rect { x: chunks[0].x, y: chunks[0].y, width: chunks[0].width, height: chunks[0].height },
        Rect { x: chunks[1].x, y: chunks[1].y, width: chunks[1].width, height: chunks[1].height },
    )
}

/// The width of the sidebar.
pub const SIDEBAR_WIDTH: u16 = 24;

/// The height of the exit button below the sidebar's list.
pub const EXIT_BUTTON_HEIGHT: u16 = 1;

/// The pane that shows tmux, and the sidebar at its right.
pub open spec fn screen_parts(area: Rect) -> (Rect, Rect) {
    parts_of(Axis::Horizontal, 1, SIDEBAR_WIDTH, area)
}

/// The list in the sidebar, and the exit button below it.
pub open spec fn sidebar_parts(area: Rect) -> (Rect, Rect) {
    parts_of(Axis::Vertical, 1, EXIT_BUTTON_HEIGHT, area)
}

/// Cuts the screen into the tmux pane and the sidebar.
pub fn split_area(area: Rect) -> (parts: [Rect; 2])
    ensures
        parts@ == seq![screen_parts(area).0, screen_parts(area).1],
{
    let parts = layout_split(Axis::Horizontal, 1, SIDEBAR_WIDTH, area);
    [parts.0, parts.1]
}

/// Cuts the sidebar into its list and the exit button.
pub fn split_sidebar(area: Rect) -> (parts: [Rect; 2])
    ensures
        parts@ == seq![sidebar_parts(area).0, sidebar_parts(area).1],
{
    let parts = layout_split(Axis::Vertical, 1, EXIT_BUTTON_HEIGHT, area);
    [parts.0, parts.1]
}

/// Whether a cell lies in a rectangle. Cells at `u16::MAX` lie in none.
pub open spec fn rect_holds(rect: Rect, column: u16, row: u16) -> bool {
    &&& rect.x <= column < rect.x + reach_of(rect.x, rect.width)
    &&& rect.y <= row < rect.y + reach_of(rect.y, rect.height)
}

pub fn rect_contains(rect: Rect, column: u16, row: u16) -> (yes: bool)
    ensures
        yes == rect_holds(rect, column, row),
{
    column >= rect.x && column - rect.x < rect.width && column < u16::MAX && row >= rect.y && row
        - rect.y < rect.height && row < u16::MAX
}

} // verus!

//! The sidebar: its rows, which of them is selected, what a click hits and how far it has
//! scrolled.

use crate::layout::{rect_contains, rect_holds, Rect};
use crate::panes::{
    ordered_list, pane_views, session_entries, PaneView, RecentPane,
};
use crate::state::{AppState, AppView};
use crate::styled::{plain_span, Color, Line, Span, SpanView, Style};
use crate::text::same_text;
use crate::tmux::TmuxSession;
use vstd::prelude::*;

verus! {

/// How many panes are shown under a session.
pub const MAX_RECENT_PANES_PER_SESSION: usize = 5;

#[derive(Clone, Debug, PartialEq, Eq)]
pub enum SidebarRow {
    Session { session_index: usize },
    Pane { session_index: usize, pane: RecentPane },
    Spacer,
}

pub enum RowView {
    Session { session_index: nat },
    Pane { session_index: nat, pane: PaneView },
    Spacer,
}

impl View for SidebarRow {
    type V = RowView;

    open spec fn view(&self) -> RowView {
        match *self {
            SidebarRow::Session { session_index } => RowView::Session {
                session_index: session_index as nat,
            },
            SidebarRow::Pane { session_index, pane } => RowView::Pane {
                session_index: session_index as nat,
                pane: pane@,
            },
            SidebarRow::Spacer => RowView::Spacer,
        }
    }
}

pub open spec fn row_views(rows: Seq<SidebarRow>) -> Seq<RowView> {
    rows.map_values(|row: SidebarRow| row@)
}

/// The panes that are shown under a session: the first few in the order of panes.
pub open spec fn shown_panes(app: AppView, index: int) -> Seq<PaneView> {
    let panes = ordered_list(session_entries(app.recent, app.sessions[index].id@));
    if panes.len() > MAX_RECENT_PANES_PER_SESSION {
        panes.take(MAX_RECENT_PANES_PER_SESSION as int)
    } else {
        panes
    }
}

pub open spec fn pane_rows(index: nat, panes: Seq<PaneView>) -> Seq<RowView> {
    panes.map_values(|pane: PaneView| RowView::Pane { session_index: index, pane })
}

/// A session, the panes under it, and a spacer before the next session.
pub open spec fn session_rows(app: AppView, index: nat) -> Seq<RowView> {
    seq![RowView::Session { session_index: index }] + pane_rows(
        index,
        shown_panes(app, index as int),
    ) + if index + 1 < app.sessions.len() {
        seq![RowView::Spacer]
    } else {
        Seq::empty()
    }
}

/// The rows of the first `count` sessions.
pub open spec fn rows_of_first(app: AppView, count: nat) -> Seq<RowView>
    decreases count,
{
    if count == 0 {
        Seq::empty()
    } else {
        rows_of_first(app, (count - 1) as nat) + session_rows(app, (count - 1) as nat)
    }
}

pub open spec fn sidebar_rows(app: AppView) -> Seq<RowView> {
    rows_of_first(app, app.sessions.len())
}

/// The rows that the sidebar shows.
pub fn build_sidebar_rows(state: &AppState) -> (rows: Vec<SidebarRow>)
    ensures
        row_views(rows@) == sidebar_rows(state@),
{
    let mut rows: Vec<SidebarRow> = Vec::new();
    let mut index: usize = 0;
    assert(row_views(rows@) =~= rows_of_first(state@, 0));
    while index < state.sessions.len()
        invariant
            index <= state.sessions.len(),
            row_views(rows@) == rows_of_first(state@, index as nat),
        decreases state.sessions.len() - index,
    {
        let ghost before = row_views(rows@);
        rows.push(SidebarRow::Session { session_index: index });
        let panes = state.recent_panes_for_session(state.sessions[index].id.as_str());
        let ghost shown = shown_panes(state@, index as int);
        let ghost head = before.push(RowView::Session { session_index: index as nat });
        assert(row_views(rows@) =~= head);
        let mut i: usize = 0;
        assert(row_views(rows@) =~= head + pane_rows(index as nat, shown.take(0)));
        while i < panes.len() && i < MAX_RECENT_PANES_PER_SESSION
            invariant
                i <= panes.len(),
                i <= MAX_RECENT_PANES_PER_SESSION,
                pane_views(panes@) == ordered_list(
                    session_entries(state@.recent, state@.sessions[index as int].id@),
                ),
                shown == shown_panes(state@, index as int),
                row_views(rows@) == head + pane_rows(index as nat, shown.take(i as int)),
            decreases panes.len() - i,
        {
            let ghost so_far = row_views(rows@);
            rows.push(SidebarRow::Pane { session_index: index, pane: panes[i].clone() });
            proof {
                assert(pane_views(panes@)[i as int] == panes@[i as int]@);
                assert(shown[i as int] == panes@[i as int]@);
                assert(row_views(rows@) =~= so_far.push(
                    RowView::Pane { session_index: index as nat, pane: panes@[i as int]@ },
                ));
                assert(row_views(rows@) =~= head + pane_rows(index as nat, shown.take(i + 1)));
            }
            i = i + 1;
        }
        assert(pane_views(panes@).len() == panes@.len());
        assert(shown.take(i as int) =~= shown);
        if index + 1 < state.sessions.len() {
            let ghost so_far = row_views(rows@);
            rows.push(SidebarRow::Spacer);
            assert(row_views(rows@) =~= so_far.push(RowView::Spacer));
        }
        assert(row_views(rows@) =~= before + session_rows(state@, index as nat));
        index = index + 1;
    }
    rows
}

/// The position of the first item that satisfies a predicate.
pub open spec fn first_where<T>(items: Seq<T>, wanted: spec_fn(T) -> bool) -> Option<nat>
    decreases items.len(),
{
    if items.len() == 0 {
        None
    } else {
        match first_where(items.drop_last(), wanted) {
            Some(at) => Some(at),
            None => if wanted(items.last()) {
                Some((items.len() - 1) as nat)
            } else {
                None
            },
        }
    }
}

pub open spec fn is_row_of_pane(row: RowView, session_index: nat, pane_id: Seq<char>) -> bool {
    row matches RowView::Pane { session_index: index, pane } && index == session_index
        && pane.pane_id == pane_id
}

pub open spec fn is_row_of_session(row: RowView, session_index: nat) -> bool {
    row matches RowView::Session { session_index: index } && index == session_index
}

/// The row of the selected pane; where there is none, the row of the selected session.
pub open spec fn selected_row(app: AppView, rows: Seq<RowView>) -> Option<nat> {
    let session = first_where(rows, |row: RowView| is_row_of_session(row, app.selected));
    match app.selected_pane {
        Some(pane_id) => match first_where(
            rows,
            |row: RowView| is_row_of_pane(row, app.selected, pane_id),
        ) {
            Some(at) => Some(at),
            None => session,
        },
        None => session,
    }
}

/// The row that is highlighted.
pub fn selected_sidebar_row_index(state: &AppState, rows: &Vec<SidebarRow>) -> (index: Option<
    usize,
>)
    ensures
        match index {
            Some(at) => selected_row(state@, row_views(rows@)) == Some(at as nat) && at
                < rows@.len(),
            None => selected_row(state@, row_views(rows@)) is None,
        },
{
    let ghost views = row_views(rows@);
    match &state.selected_pane {
        Some(target) => {
            let ghost wanted = |row: RowView|
                is_row_of_pane(row, state@.selected, target.pane_id@);
            let mut i: usize = 0;
            assert(views.take(0) =~= Seq::empty());
            while i < rows.len()
                invariant
                    i <= rows.len(),
                    views == row_views(rows@),
                    state@.selected_pane == Some(target.pane_id@),
                    wanted == (|row: RowView|
                        is_row_of_pane(row, state@.selected, target.pane_id@)),
                    first_where(views.take(i as int), wanted) is None,
                decreases rows.len() - i,
            {
                let hit = match &rows[i] {
                    SidebarRow::Pane { session_index, pane } => *session_index == state.selected
                        && same_text(pane.pane_id.as_str(), target.pane_id.as_str()),
                    _ => false,
                };
                proof {
                    assert(views.take(i + 1).drop_last() =~= views.take(i as int));
                    assert(views.take(i + 1).last() == rows@[i as int]@);
                    assert(hit == wanted(rows@[i as int]@));
                }
                if hit {
                    proof {
                        lemma_first_where_in_prefix(views, wanted, i + 1);
                    }
                    return Some(i);
                }
                i = i + 1;
            }
            assert(views.take(i as int) =~= views);
        },
        None => {},
    }
    let ghost wanted = |row: RowView| is_row_of_session(row, state@.selected);
    let mut i: usize = 0;
    assert(views.take(0) =~= Seq::empty());
    while i < rows.len()
        invariant
            i <= rows.len(),
            views == row_views(rows@),
            selected_row(state@, views) == first_where(views, wanted),
            wanted == (|row: RowView| is_row_of_session(row, state@.selected)),
            first_where(views.take(i as int), wanted) is None,
        decreases rows.len() - i,
    {
        let hit = match &rows[i] {
            SidebarRow::Session { session_index } => *session_index == state.selected,
            _ => false,
        };
        proof {
            assert(views.take(i + 1).drop_last() =~= views.take(i as int));
            assert(views.take(i + 1).last() == rows@[i as int]@);
            assert(hit == wanted(rows@[i as int]@));
        }
        if hit {
            proof {
                lemma_first_where_in_prefix(views, wanted, i + 1);
            }
            return Some(i);
        }
        i = i + 1;
    }
    assert(views.take(i as int) =~= views);
    None
}

/// What is first in a prefix is first.
proof fn lemma_first_where_in_prefix<T>(items: Seq<T>, wanted: spec_fn(T) -> bool, len: int)
    requires
        0 <= len <= items.len(),
        first_where(items.take(len), wanted) is Some,
    ensures
        first_where(items, wanted) == first_where(items.take(len), wanted),
    decreases items.len() - len,
{
    if len < items.len() {
        assert(items.take(len + 1).drop_last() =~= items.take(len));
        lemma_first_where_in_prefix(items, wanted, len + 1);
    } else {
        assert(items.take(len) =~= items);
    }
}

/// What a click in the sidebar hits.
#[derive(Clone, Copy, Debug, PartialEq, Eq, Structural)]
pub enum SidebarMouseTarget {
    Row(usize),
    Exit,
}

/// What the cell at a column and a row of the screen belongs to, when the sidebar has scrolled
/// by `row_offset` rows. Spacers belong to nothing.
pub open spec fn target_at(
    sidebar_body: Rect,
    exit_button: Rect,
    column: u16,
    row: u16,
    rows: Seq<RowView>,
    row_offset: nat,
) -> Option<SidebarMouseTarget> {
    let index = row_offset + (row - sidebar_body.y);
    if rect_holds(exit_button, column, row) {
        Some(SidebarMouseTarget::Exit)
    } else if rect_holds(sidebar_body, column, row) && index < rows.len() && !(
    rows[index] is Spacer) {
        Some(SidebarMouseTarget::Row(index as usize))
    } else {
        None
    }
}

pub fn sidebar_mouse_target_from_point(
    sidebar_body: Rect,
    exit_button: Rect,
    mouse_col: u16,
    mouse_row: u16,
    rows: &Vec<SidebarRow>,
    row_offset: usize,
) -> (target: Option<SidebarMouseTarget>)
    ensures
        target == target_at(
            sidebar_body,
            exit_button,
            mouse_col,
            mouse_row,
            row_views(rows@),
            row_offset as nat,
        ),
        target matches Some(SidebarMouseTarget::Row(index)) ==> index < rows@.len(),
{
    if rect_contains(exit_button, mouse_col, mouse_row) {
        return Some(SidebarMouseTarget::Exit);
    }
    if rows.len() == 0 || !rect_contains(sidebar_body, mouse_col, mouse_row) {
        return None;
    }
    let relative_row: u16 = mouse_row - sidebar_body.y;
    if row_offset >= rows.len() || relative_row as usize >= rows.len() - row_offset {
        return None;
    }
    let index: usize = row_offset + relative_row as usize;
    assert(row_views(rows@)[index as int] == rows@[index as int]@);
    match &rows[index] {
        SidebarRow::Spacer => None,
        _ => Some(SidebarMouseTarget::Row(index)),
    }
}

/// How far the list is scrolled so that row `selected` is among the `visible` ones: as far as
/// before if that will do, and else as little further or less far as needed. Without rows, or
/// without room for them, it stays.
pub open spec fn synced_offset(offset: nat, selected: nat, visible: nat, items: nat) -> nat {
    let most = if items > visible {
        (items - visible) as nat
    } else {
        0
    };
    let start = if offset > most {
        most
    } else {
        offset
    };
    let wanted = if selected < start {
        selected
    } else if selected >= start + visible {
        (selected + 1 - visible) as nat
    } else {
        start
    };
    if visible == 0 || items == 0 {
        offset
    } else if wanted > most {
        most
    } else {
        wanted
    }
}

/// Scrolls the list so that the selected row is visible.
pub fn sync_sidebar_list_offset(
    offset: &mut usize,
    selected: usize,
    visible_height: usize,
    items_len: usize,
)
    ensures
        *final(offset) == synced_offset(
            *old(offset) as nat,
            selected as nat,
            visible_height as nat,
            items_len as nat,
        ),
{
    if visible_height == 0 || items_len == 0 {
        return;
    }
    let most: usize = if items_len > visible_height {
        items_len - visible_height
    } else {
        0
    };
    let start: usize = if *offset > most {
        most
    } else {
        *offset
    };
    let wanted: usize = if selected < start {
        selected
    } else if selected - start >= visible_height {
        selected - (visible_height - 1)
    } else {
        start
    };
    *offset = if wanted > most {
        most
    } else {
        wanted
    };
}

pub open spec fn session_label(session: TmuxSession) -> Seq<SpanView> {
    if session.attached {
        seq![plain_span(session.name@), plain_span(" (attached)"@)]
    } else {
        seq![plain_span(session.name@)]
    }
}

pub open spec fn pane_label(pane: PaneView) -> Seq<SpanView> {
    seq![
        plain_span("  "@),
        SpanView {
            content: pane.title,
            style: Style { fg: Some(Color::Yellow), bold: true, ..Style::plain() },
        },
    ]
}

/// A session's name, marked where a client is attached.
pub fn session_label_line(session: &TmuxSession) -> (line: Line)
    ensures
        line@ == session_label(*session),
{
    let mut spans: Vec<Span> = Vec::new();
    spans.push(Span { content: session.name.clone(), style: Style::default() });
    if session.attached {
        spans.push(Span { content: " (attached)".to_owned(), style: Style::default() });
    }
    let line = Line { spans };
    assert(line@ =~= session_label(*session));
    line
}

/// A pane's title, indented and highlighted.
pub fn pane_label_line(pane: &RecentPane) -> (line: Line)
    ensures
        line@ == pane_label(pane@),
{
    let mut spans: Vec<Span> = Vec::new();
    spans.push(Span { content: "  ".to_owned(), style: Style::default() });
    let plain = Style::default();
    spans.push(
        Span {
            content: pane.title.clone(),
            style: Style {
                fg: Some(Color::Yellow),
                bg: plain.bg,
                bold: true,
                italic: plain.italic,
                underlined: plain.underlined,
                reversed: plain.reversed,
            },
        },
    );
    let line = Line { spans };
    assert(line@ =~= pane_label(pane@));
    line
}

pub open spec fn row_label(row: RowView, sessions: Seq<TmuxSession>) -> Seq<SpanView> {
    match row {
        RowView::Session { session_index } => session_label(sessions[session_index as int]),
        RowView::Pane { session_index, pane } => pane_label(pane),
        RowView::Spacer => Seq::empty(),
    }
}

/// What a row shows.
pub fn sidebar_item(row: &SidebarRow, sessions: &Vec<TmuxSession>) -> (line: Line)
    requires
        row@ matches RowView::Session { session_index } ==> session_index < sessions@.len(),
    ensures
        line@ == row_label(row@, sessions@),
{
    match row {
        SidebarRow::Session { session_index } => session_label_line(&sessions[*session_index]),
        SidebarRow::Pane { pane, .. } => pane_label_line(pane),
        SidebarRow::Spacer => {
            let line = Line { spans: Vec::new() };
            assert(line@ =~= Seq::empty());
            line
        },
    }
}

} // verus!

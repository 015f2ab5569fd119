//! What holds of the chooser from one frame to the next.

use crate::chooser::{
    after_input, framed, highlighted_row, plan_of, row_labels, ChooserView, PlanView,
};
use crate::input::{drain, ScreenView};
use crate::layout::Rect;
use crate::panes::PaneView;
use crate::sidebar::{
    pane_rows, row_label, rows_of_first, selected_row, session_rows, shown_panes, sidebar_rows,
    synced_offset, RowView,
};
use crate::state::AppView;
use crate::styled::{text_of, Color, SpanView};
use crate::tmux::TmuxSession;
use vstd::prelude::*;

verus! {

/// Whether two areas are the same in place and size.
pub open spec fn same_area(a: Rect, b: Rect) -> bool {
    a.x == b.x && a.y == b.y && a.width == b.width && a.height == b.height
}

/// From one frame to the next the tmux client keeps its size as long as its area stays where and
/// as large as it is; as soon as the area differs in anything, the client is resized to it.
pub proof fn law_client_is_resized_with_its_area(
    chooser: ChooserView,
    first: Rect,
    second: Rect,
)
    requires
        chooser.has_pane || chooser.app.sessions.len() > 0,
    ensures
        plan_of(framed(chooser, first), second) == if same_area(first, second) {
            PlanView::Keep
        } else {
            PlanView::Resize { width: second.width, height: second.height }
        },
{
}

/// As long as there is a tmux client none is started, and it is resized unless its area is the
/// one that it had.
pub proof fn law_running_client_is_kept(chooser: ChooserView, area: Rect)
    requires
        chooser.has_pane,
    ensures
        plan_of(chooser, area) == match chooser.last_pane_area {
            Some(last) => if same_area(last, area) {
                PlanView::Keep
            } else {
                PlanView::Resize { width: area.width, height: area.height }
            },
            None => PlanView::Resize { width: area.width, height: area.height },
        },
        framed(chooser, area).has_pane,
{
}

/// Where there is no tmux client, one is started for the selected session, and the selected pane
/// if there is one; without sessions there is none to start.
pub proof fn law_missing_client_is_started(chooser: ChooserView, area: Rect)
    requires
        !chooser.has_pane,
        chooser.app.selection_in_range(),
    ensures
        plan_of(chooser, area) == if chooser.app.sessions.len() > 0 {
            PlanView::Spawn {
                session_id: chooser.app.sessions[chooser.app.selected as int].id@,
                pane_id: chooser.app.selected_pane,
            }
        } else {
            PlanView::Keep
        },
        framed(chooser, area).has_pane == (chooser.app.sessions.len() > 0),
{
}

/// Planning a frame changes neither what is shown nor what is pending.
pub proof fn law_frame_leaves_the_rest(chooser: ChooserView, area: Rect)
    ensures
        framed(chooser, area).app == chooser.app,
        framed(chooser, area).list_offset == chooser.list_offset,
        framed(chooser, area).pending == chooser.pending,
        framed(chooser, area).captured == chooser.captured,
        framed(chooser, area).last_pane_area == Some(area),
{
}

/// Input gives the tmux client up if and only if something that it leads to says so. It does
/// not scroll the list, and the client keeps its area.
pub proof fn law_input_gives_the_client_up_only_when_told(
    chooser: ChooserView,
    screen: ScreenView,
)
    ensures
        ({
            let drained = drain(screen, chooser.pending, chooser.app, chooser.captured);
            let after = after_input(chooser, screen);
            &&& after.app == drained.app
            &&& after.pending == drained.pending
            &&& after.captured == drained.captured
            &&& after.list_offset == chooser.list_offset
            &&& after.last_pane_area == chooser.last_pane_area
            &&& after.has_pane == (chooser.has_pane && forall|i: int|
                0 <= i < drained.actions.len() ==> (#[trigger] drained.actions[i]) is Send)
        }),
{
    let actions = drain(screen, chooser.pending, chooser.app, chooser.captured).actions;
    assert forall|i: int| 0 <= i < actions.len() implies (#[trigger] actions[i]) is Send
        == !(actions[i] is RestartPane) by {}
}

/// The row that is highlighted is the selected one, or the first where none is.
pub proof fn law_selected_row_is_the_highlighted_one(app: AppView)
    ensures
        selected_row(app, sidebar_rows(app)) matches Some(at) ==> highlighted_row(app) == at,
        selected_row(app, sidebar_rows(app)) is None ==> highlighted_row(app) == 0,
{
}

/// Scrolling goes no further than it must: of all places where the selected row is seen and no
/// line stays empty without need, the list is scrolled to the one nearest to where it was.
pub proof fn law_list_scrolls_as_little_as_it_can(
    offset: nat,
    selected: nat,
    visible: nat,
    items: nat,
    other: nat,
)
    requires
        visible > 0,
        selected < items,
        other <= selected < other + visible,
        other + visible <= items || other == 0,
    ensures
        ({
            let scrolled = synced_offset(offset, selected, visible, items);
            &&& scrolled + visible <= items || scrolled == 0
            &&& scrolled >= offset ==> scrolled - offset <= if other >= offset {
                other - offset
            } else {
                offset - other
            }
            &&& scrolled < offset ==> offset - scrolled <= if other >= offset {
                other - offset
            } else {
                offset - other
            }
        }),
{
}

/// Without rows, or without room for any, the list stays where it is.
pub proof fn law_empty_list_stays(offset: nat, selected: nat, visible: nat, items: nat)
    requires
        visible == 0 || items == 0,
    ensures
        synced_offset(offset, selected, visible, items) == offset,
{
}

/// Where the rows of a session begin.
pub open spec fn row_of_session(app: AppView, index: nat) -> int {
    rows_of_first(app, index).len() as int
}

proof fn lemma_rows_stay(app: AppView, count: nat, more: nat)
    requires
        count <= more,
    ensures
        rows_of_first(app, count).len() <= rows_of_first(app, more).len(),
        forall|i: int|
            0 <= i < rows_of_first(app, count).len() ==> #[trigger] rows_of_first(app, more)[i]
                == rows_of_first(app, count)[i],
    decreases more - count,
{
    if count < more {
        lemma_rows_stay(app, count, (more - 1) as nat);
    }
}

/// The sidebar lists all sessions in their order. Each has a row, under which stand the rows of
/// its recent panes; a spacer stands between each two sessions, and nowhere else.
pub proof fn law_sidebar_lists_sessions_with_their_panes(app: AppView, index: nat)
    requires
        index < app.sessions.len(),
    ensures
        ({
            let rows = sidebar_rows(app);
            let panes = shown_panes(app, index as int);
            let at = row_of_session(app, index);
            let end = at + 1 + panes.len();
            &&& row_of_session(app, 0) == 0
            &&& at < rows.len() && rows[at] == (RowView::Session { session_index: index })
            &&& end <= rows.len()
            &&& forall|i: int|
                0 <= i < panes.len() ==> #[trigger] rows[at + 1 + i] == (RowView::Pane {
                    session_index: index,
                    pane: panes[i],
                })
            &&& if index + 1 < app.sessions.len() {
                end < rows.len() && rows[end] is Spacer && row_of_session(app, index + 1) == end + 1
            } else {
                rows.len() == end
            }
        }),
{
    let count = app.sessions.len();
    let rows = sidebar_rows(app);
    let panes = shown_panes(app, index as int);
    let before = rows_of_first(app, index);
    let own = session_rows(app, index);
    let upto = rows_of_first(app, index + 1);
    lemma_rows_stay(app, index + 1, count);
    assert(upto == before + own);
    let at = before.len() as int;
    assert(upto[at] == own[0]);
    assert(pane_rows(index, panes).len() == panes.len());
    assert forall|i: int| 0 <= i < panes.len() implies #[trigger] rows[at + 1 + i] == (
    RowView::Pane { session_index: index, pane: panes[i] }) by {
        assert(upto[at + 1 + i] == own[1 + i]);
        assert(own[1 + i] == pane_rows(index, panes)[i]);
    }
    if index + 1 < count {
        assert(upto[at + 1 + panes.len()] == own[panes.len() as int + 1]);
    }
}

/// A session is shown by its name, with a mark where a client is attached.
pub proof fn law_session_row_shows_the_name(session_index: nat, sessions: Seq<TmuxSession>)
    requires
        session_index < sessions.len(),
    ensures
        ({
            let session = sessions[session_index as int];
            let label = row_label(RowView::Session { session_index }, sessions);
            &&& text_of(label) == if session.attached {
                session.name@ + " (attached)"@
            } else {
                session.name@
            }
            &&& forall|i: int|
                0 <= i < label.len() ==> (#[trigger] label[i]).style.fg is None
                    && label[i].style.bg is None && !label[i].style.bold && !label[i].style.italic
                    && !label[i].style.underlined && !label[i].style.reversed
        }),
{
    let label = row_label(RowView::Session { session_index }, sessions);
    lemma_text_of_label(label);
}

/// A pane is shown by its title, two cells in, bold and yellow; a spacer shows nothing.
pub proof fn law_pane_row_shows_the_title(
    session_index: nat,
    pane: PaneView,
    sessions: Seq<TmuxSession>,
)
    ensures
        ({
            let label = row_label(RowView::Pane { session_index, pane }, sessions);
            &&& text_of(label) == seq![' ', ' '] + pane.title
            &&& label.last().content == pane.title
            &&& label.last().style.fg == Some(Color::Yellow) && label.last().style.bold
            &&& label.last().style.bg is None && !label.last().style.italic
            &&& !label.last().style.underlined && !label.last().style.reversed
        }),
        row_label(RowView::Spacer, sessions).len() == 0,
{
    reveal_strlit("  ");
    let label = row_label(RowView::Pane { session_index, pane }, sessions);
    lemma_text_of_label(label);
    assert(text_of(label) =~= seq![' ', ' '] + pane.title);
}

proof fn lemma_text_of_label(label: Seq<SpanView>)
    requires
        1 <= label.len() <= 2,
    ensures
        label.len() == 1 ==> text_of(label) == label[0].content,
        label.len() == 2 ==> text_of(label) == label[0].content + label[1].content,
{
    reveal_with_fuel(text_of, 3);
    if label.len() == 1 {
        assert(text_of(label) =~= label[0].content);
    } else {
        assert(text_of(label) =~= label[0].content + label[1].content);
    }
}

/// Every row is drawn as what it shows, in the order of the rows.
pub proof fn law_rows_are_drawn_one_by_one(rows: Seq<RowView>, sessions: Seq<TmuxSession>)
    ensures
        row_labels(rows, sessions).len() == rows.len(),
        forall|i: int|
            0 <= i < rows.len() ==> #[trigger] row_labels(rows, sessions)[i] == row_label(
                rows[i],
                sessions,
            ),
{
}

} // verus!

//! What holds of the screen and of the sidebar on it.

use crate::chooser::lemma_rows_name_sessions;
use crate::input::click;
use crate::layout::{reach_of, rect_holds, screen_parts, sidebar_parts, Rect};
use crate::panes::{
    in_pane_order, lemma_list_gives_table, lemma_session_can_be_listed, lists_in_order,
    ordered_list, pane_le, session_entries, table_of, PaneKey, PaneView,
};
use crate::recent_activity::{apply, recent_entries, EventView};
use crate::sidebar::{
    first_where, is_row_of_pane, is_row_of_session, pane_rows, rows_of_first, selected_row,
    session_rows, shown_panes, sidebar_rows, synced_offset, target_at, RowView, SidebarMouseTarget,
};
use crate::state::AppView;
use vstd::prelude::*;

verus! {

/// The tmux pane and the sidebar cover the screen between them, and share no cell. The sidebar
/// stands at the right, 24 cells wide where there is room for it and for the pane.
pub proof fn law_sidebar_stands_at_the_right(area: Rect, column: u16, row: u16)
    ensures
        ({
            let (pane, sidebar) = screen_parts(area);
            &&& rect_holds(area, column, row) == (rect_holds(pane, column, row) || rect_holds(
                sidebar,
                column,
                row,
            ))
            &&& !(rect_holds(pane, column, row) && rect_holds(sidebar, column, row))
            &&& sidebar.x == pane.x + pane.width
            &&& pane.y == area.y && pane.height == area.height
            &&& sidebar.y == area.y && sidebar.height == area.height
            &&& reach_of(area.x, area.width) >= 25 ==> sidebar.width == 24
        }),
{
}

/// The list and the exit button cover the sidebar between them, and share no cell. The button
/// is the last line, where there is room for it and for the list.
pub proof fn law_exit_button_is_the_last_line(area: Rect, column: u16, row: u16)
    ensures
        ({
            let (body, exit) = sidebar_parts(area);
            &&& rect_holds(area, column, row) == (rect_holds(body, column, row) || rect_holds(
                exit,
                column,
                row,
            ))
            &&& !(rect_holds(body, column, row) && rect_holds(exit, column, row))
            &&& exit.y == body.y + body.height
            &&& reach_of(area.y, area.height) >= 2 ==> exit.height == 1
        }),
{
}

/// The list is scrolled so that the selected row is seen.
pub proof fn law_selected_row_is_seen(offset: nat, selected: nat, visible: nat, items: nat)
    requires
        visible > 0,
        selected < items,
    ensures
        synced_offset(offset, selected, visible, items) <= selected < synced_offset(
            offset,
            selected,
            visible,
            items,
        ) + visible,
{
}

/// The list is not scrolled without need: not if the selected row is seen as it is and no line
/// of the list would stay empty.
pub proof fn law_list_is_not_scrolled_without_need(
    offset: nat,
    selected: nat,
    visible: nat,
    items: nat,
)
    requires
        offset <= selected < offset + visible,
        offset + visible <= items || offset == 0,
    ensures
        synced_offset(offset, selected, visible, items) == offset,
{
}

proof fn lemma_first_where<T>(items: Seq<T>, wanted: spec_fn(T) -> bool)
    ensures
        match first_where(items, wanted) {
            Some(at) => at < items.len() && wanted(items[at as int]) && forall|i: int|
                0 <= i < at ==> !wanted(#[trigger] items[i]),
            None => forall|i: int| 0 <= i < items.len() ==> !wanted(#[trigger] items[i]),
        },
    decreases items.len(),
{
    if items.len() > 0 {
        let shorter = items.drop_last();
        lemma_first_where(shorter, wanted);
        match first_where(shorter, wanted) {
            Some(at) => {
                assert(shorter[at as int] == items[at as int]);
                assert forall|i: int| 0 <= i < at implies !wanted(#[trigger] items[i]) by {
                    assert(shorter[i] == items[i]);
                }
            },
            None => {
                assert forall|i: int| 0 <= i < items.len() - 1 implies !wanted(
                    #[trigger] items[i],
                ) by {
                    assert(shorter[i] == items[i]);
                }
            },
        }
    }
}

proof fn lemma_session_has_a_row(app: AppView, count: nat, session: nat) -> (at: int)
    requires
        session < count,
    ensures
        0 <= at < rows_of_first(app, count).len(),
        rows_of_first(app, count)[at] == (RowView::Session { session_index: session }),
    decreases count,
{
    let before = rows_of_first(app, (count - 1) as nat);
    if session < count - 1 {
        lemma_session_has_a_row(app, (count - 1) as nat, session)
    } else {
        assert(rows_of_first(app, count)[before.len() as int] == session_rows(app, session)[0]);
        before.len() as int
    }
}

/// As long as there are sessions, one row is highlighted: that of the selected pane if it is
/// shown, and that of the selected session otherwise.
pub proof fn law_selection_is_highlighted(app: AppView)
    requires
        app.selection_in_range(),
        app.sessions.len() > 0,
    ensures
        ({
            let rows = sidebar_rows(app);
            selected_row(app, rows) matches Some(at) && at < rows.len() && (is_row_of_session(
                rows[at as int],
                app.selected,
            ) || (app.selected_pane matches Some(pane_id) && is_row_of_pane(
                rows[at as int],
                app.selected,
                pane_id,
            )))
        }),
{
    let rows = sidebar_rows(app);
    let of_session = |row: RowView| is_row_of_session(row, app.selected);
    lemma_first_where(rows, of_session);
    let at = lemma_session_has_a_row(app, app.sessions.len(), app.selected);
    assert(of_session(rows[at]));
    match app.selected_pane {
        Some(pane_id) => {
            lemma_first_where(rows, |row: RowView| is_row_of_pane(row, app.selected, pane_id));
        },
        None => {},
    }
}

proof fn lemma_shown_panes_differ(
    app: AppView,
    panes: Seq<PaneView>,
    index: int,
    i: int,
    j: int,
)
    requires
        app.recent == table_of(panes),
        0 <= i < j < shown_panes(app, index).len(),
    ensures
        shown_panes(app, index)[i].pane_id != shown_panes(app, index)[j].pane_id,
{
    let session_id = app.sessions[index].id@;
    let entries = session_entries(app.recent, session_id);
    let list = lemma_session_can_be_listed(panes, session_id);
    assert(lists_in_order(list, entries));
    let listed = ordered_list(entries);
    let shown = shown_panes(app, index);
    assert(shown[i] == listed[i] && shown[j] == listed[j]);
    assert(listed[i].key() != listed[j].key());
    assert(entries.contains_key(listed[i].key()));
    assert(entries.contains_key(listed[j].key()));
}

/// Under a session the first five of its recent panes are shown, in the order of panes; those
/// that are not shown come after all that are.
pub proof fn law_first_panes_are_shown(
    app: AppView,
    recent: Seq<PaneView>,
    index: int,
    key: PaneKey,
)
    requires
        app.recent == table_of(recent),
        0 <= index < app.sessions.len(),
    ensures
        ({
            let shown = shown_panes(app, index);
            let entries = session_entries(app.recent, app.sessions[index].id@);
            &&& shown.len() <= 5
            &&& in_pane_order(shown)
            &&& forall|i: int|
                0 <= i < shown.len() ==> entries.contains_key((#[trigger] shown[i]).key())
                    && entries[shown[i].key()] == shown[i]
            &&& entries.contains_key(key) && !shown.contains(entries[key]) ==> shown.len() == 5
                && forall|i: int| 0 <= i < 5 ==> pane_le(#[trigger] shown[i], entries[key])
        }),
{
    let session_id = app.sessions[index].id@;
    let entries = session_entries(app.recent, session_id);
    let list = lemma_session_can_be_listed(recent, session_id);
    assert(lists_in_order(list, entries));
    let listed = ordered_list(entries);
    let shown = shown_panes(app, index);
    assert forall|i: int| 0 <= i < shown.len() implies #[trigger] shown[i] == listed[i] by {}
    assert forall|i: int, j: int| 0 <= i < j < shown.len() implies pane_le(
        #[trigger] shown[i],
        #[trigger] shown[j],
    ) by {
        assert(pane_le(listed[i], listed[j]));
    }
    if entries.contains_key(key) && !shown.contains(entries[key]) {
        let at = choose|i: int| 0 <= i < listed.len() && (#[trigger] listed[i]).key() == key;
        if at < shown.len() {
            assert(shown[at] == entries[key]);
        }
        assert forall|i: int| 0 <= i < 5 implies pane_le(#[trigger] shown[i], entries[key]) by {
            assert(pane_le(listed[i], listed[at]));
        }
    }
}

/// Whether two rows stand for the same session, or for the same pane of a session.
spec fn same_subject(a: RowView, b: RowView) -> bool {
    match (a, b) {
        (RowView::Session { session_index: s }, RowView::Session { session_index: t }) => s == t,
        (
            RowView::Pane { session_index: s, pane: p },
            RowView::Pane { session_index: t, pane: q },
        ) => s == t && p.pane_id == q.pane_id,
        _ => false,
    }
}

proof fn lemma_rows_differ(app: AppView, recent: Seq<PaneView>, count: nat, i: int, j: int)
    requires
        app.recent == table_of(recent),
        count <= app.sessions.len(),
        0 <= i < j < rows_of_first(app, count).len(),
    ensures
        !same_subject(rows_of_first(app, count)[i], rows_of_first(app, count)[j]),
    decreases count,
{
    let index = (count - 1) as nat;
    let before = rows_of_first(app, index);
    let own = session_rows(app, index);
    let shown = shown_panes(app, index as int);
    let panes = pane_rows(index, shown);
    let rows = rows_of_first(app, count);
    if j < before.len() {
        lemma_rows_differ(app, recent, index, i, j);
    } else {
        let y = j - before.len();
        assert(rows[j] == own[y]);
        if 0 < y <= panes.len() {
            assert(own[y] == panes[y - 1]);
        }
        if i < before.len() {
            lemma_rows_name_sessions(app, index, i);
        } else {
            let x = i - before.len();
            assert(rows[i] == own[x]);
            if 0 < x <= panes.len() {
                assert(own[x] == panes[x - 1]);
                if y <= panes.len() {
                    lemma_shown_panes_differ(app, recent, index as int, x - 1, y - 1);
                }
            }
        }
    }
}

proof fn lemma_rows_depend_on(a: AppView, b: AppView, count: nat)
    requires
        a.sessions == b.sessions,
        a.recent == b.recent,
    ensures
        rows_of_first(a, count) == rows_of_first(b, count),
    decreases count,
{
    if count > 0 {
        lemma_rows_depend_on(a, b, (count - 1) as nat);
    }
}

/// A click on a row highlights that row, and changes none. The recent panes are those of any
/// snapshot.
pub proof fn law_clicked_row_is_highlighted(app: AppView, recent: Seq<PaneView>, at: nat)
    requires
        app.recent == table_of(recent),
        at < sidebar_rows(app).len(),
        !(sidebar_rows(app)[at as int] is Spacer),
    ensures
        ({
            let after = click(app, sidebar_rows(app)[at as int]);
            &&& sidebar_rows(after) == sidebar_rows(app)
            &&& selected_row(after, sidebar_rows(after)) == Some(at)
        }),
{
    let rows = sidebar_rows(app);
    let row = rows[at as int];
    let after = click(app, row);
    lemma_rows_depend_on(app, after, app.sessions.len());
    lemma_rows_name_sessions(app, app.sessions.len(), at as int);
    let of_session = |row: RowView| is_row_of_session(row, after.selected);
    lemma_first_where(rows, of_session);
    assert forall|i: int| 0 <= i < rows.len() && i != at implies !same_subject(
        #[trigger] rows[i],
        row,
    ) by {
        if i < at {
            lemma_rows_differ(app, recent, app.sessions.len(), i, at as int);
        } else {
            lemma_rows_differ(app, recent, app.sessions.len(), at as int, i);
        }
    }
    match row {
        RowView::Session { session_index } => {
            assert(after.selected == session_index && after.selected_pane is None);
            assert(of_session(rows[at as int]));
        },
        RowView::Pane { session_index, pane } => {
            assert(after.selected == session_index && after.selected_pane == Some(pane.pane_id));
            let of_pane = |row: RowView| is_row_of_pane(row, after.selected, pane.pane_id);
            lemma_first_where(rows, of_pane);
            assert(of_pane(rows[at as int]));
        },
        RowView::Spacer => {},
    }
}

/// A point in the list hits the row that is drawn there; a spacer and the room below the rows
/// are hit by nothing.
pub proof fn law_point_hits_the_row_drawn_there(
    area: Rect,
    column: u16,
    line: nat,
    rows: Seq<RowView>,
    offset: nat,
)
    requires
        ({
            let body = sidebar_parts(area).0;
            body.y + line <= u16::MAX && rect_holds(body, column, (body.y + line) as u16)
        }),
        rows.len() <= usize::MAX,
    ensures
        ({
            let (body, exit) = sidebar_parts(area);
            target_at(body, exit, column, (body.y + line) as u16, rows, offset) == if offset + line
                < rows.len() && !(rows[(offset + line) as int] is Spacer) {
                Some(SidebarMouseTarget::Row((offset + line) as usize))
            } else {
                None
            }
        }),
{
}

/// A pane that is shown under a session has a row there.
proof fn lemma_shown_pane_has_a_row(app: AppView, count: nat, index: nat, i: int) -> (at: int)
    requires
        index < count <= app.sessions.len(),
        0 <= i < shown_panes(app, index as int).len(),
    ensures
        0 <= at < rows_of_first(app, count).len(),
        rows_of_first(app, count)[at] == (RowView::Pane {
            session_index: index,
            pane: shown_panes(app, index as int)[i],
        }),
    decreases count,
{
    let before = rows_of_first(app, (count - 1) as nat);
    if index < count - 1 {
        lemma_shown_pane_has_a_row(app, (count - 1) as nat, index, i)
    } else {
        let own = session_rows(app, index);
        let panes = pane_rows(index, shown_panes(app, index as int));
        let at = before.len() + 1 + i;
        assert(rows_of_first(app, count)[at] == own[1 + i]);
        assert(own[1 + i] == panes[i]);
        at
    }
}

/// A row of a pane shows a pane of its session.
proof fn lemma_row_shows_a_pane(app: AppView, count: nat, at: int) -> (i: int)
    requires
        count <= app.sessions.len(),
        0 <= at < rows_of_first(app, count).len(),
        rows_of_first(app, count)[at] is Pane,
    ensures
        rows_of_first(app, count)[at] matches RowView::Pane { session_index, pane } && session_index
            < count && 0 <= i < shown_panes(app, session_index as int).len() && pane == shown_panes(
            app,
            session_index as int,
        )[i],
    decreases count,
{
    let before = rows_of_first(app, (count - 1) as nat);
    if at < before.len() {
        lemma_row_shows_a_pane(app, (count - 1) as nat, at)
    } else {
        let index = (count - 1) as nat;
        let own = session_rows(app, index);
        let panes = pane_rows(index, shown_panes(app, index as int));
        let x = at - before.len();
        assert(rows_of_first(app, count)[at] == own[x]);
        assert(0 < x <= panes.len());
        assert(own[x] == panes[x - 1]);
        x - 1
    }
}

/// Once the log has been read after a `notify` event that is still fresh, the sidebar has a row
/// with its text under its session, unless five panes of the session come before it. `entries`
/// is what the log left before the event, and `panes` what was read after it.
pub proof fn law_notified_pane_is_in_the_sidebar(
    app: AppView,
    entries: Map<PaneKey, PaneView>,
    session_id: Seq<char>,
    pane_id: Seq<char>,
    text: Seq<char>,
    notify_time: u64,
    now: int,
    panes: Seq<PaneView>,
    index: nat,
)
    requires
        index < app.sessions.len(),
        app.sessions[index as int].id@ == session_id,
        notify_time * 1_000_000 <= now <= notify_time * 1_000_000 + 120_000_000_000,
        lists_in_order(
            panes,
            recent_entries(
                apply(
                    entries,
                    EventView::Notify {
                        session_id,
                        pane_id,
                        pane_display_text: text,
                        notify_time,
                    },
                ),
                now,
            ),
        ),
    ensures
        ({
            let after = app.observe(panes);
            let pane = PaneView {
                session_id,
                pane_id,
                title: text,
                observed_at: notify_time * 1_000_000,
            };
            let shown = shown_panes(after, index as int);
            ||| sidebar_rows(after).contains(RowView::Pane { session_index: index, pane })
            ||| shown.len() == 5 && forall|i: int| 0 <= i < 5 ==> pane_le(#[trigger] shown[i], pane)
        }),
{
    let event = EventView::Notify { session_id, pane_id, pane_display_text: text, notify_time };
    let recent = recent_entries(apply(entries, event), now);
    let after = app.observe(panes);
    let key = (session_id, pane_id);
    lemma_list_gives_table(panes, recent);
    let own = session_entries(after.recent, session_id);
    assert(recent.contains_key(key));
    assert(own.contains_key(key));
    law_first_panes_are_shown(after, panes, index as int, key);
    let shown = shown_panes(after, index as int);
    if shown.contains(own[key]) {
        let i = choose|i: int| 0 <= i < shown.len() && shown[i] == own[key];
        let at = lemma_shown_pane_has_a_row(after, after.sessions.len(), index, i);
        assert(sidebar_rows(after)[at] == (RowView::Pane { session_index: index, pane: own[key] }));
    }
}

/// Once the log has been read after a `clear` event, no row of the sidebar shows its pane.
/// `entries` is what the log left before the event, and `panes` what was read after it.
pub proof fn law_cleared_pane_is_not_in_the_sidebar(
    app: AppView,
    entries: Map<PaneKey, PaneView>,
    session_id: Seq<char>,
    pane_id: Seq<char>,
    now: int,
    panes: Seq<PaneView>,
    at: int,
)
    requires
        lists_in_order(
            panes,
            recent_entries(apply(entries, EventView::Clear { session_id, pane_id }), now),
        ),
        0 <= at < sidebar_rows(app.observe(panes)).len(),
    ensures
        sidebar_rows(app.observe(panes))[at] matches RowView::Pane { pane, .. } ==> pane.key() != (
            session_id,
            pane_id,
        ),
{
    let recent = recent_entries(apply(entries, EventView::Clear { session_id, pane_id }), now);
    let after = app.observe(panes);
    lemma_list_gives_table(panes, recent);
    let rows = sidebar_rows(after);
    match rows[at] {
        RowView::Pane { session_index, pane } => {
            let i = lemma_row_shows_a_pane(after, after.sessions.len(), at);
            law_first_panes_are_shown(after, panes, session_index as int, pane.key());
            let shown = shown_panes(after, session_index as int);
            assert(shown[i] == pane);
            assert(recent.contains_key(pane.key()));
        },
        _ => {},
    }
}

} // verus!

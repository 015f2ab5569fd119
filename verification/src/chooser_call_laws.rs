//! What the calls of the chooser give, in terms of what they are given.
//!
//! A call is written as `call_ensures(function, arguments, result)`: the function, called with the
//! arguments, may return the result.

use crate::chooser::{
    after_frame, choose_among, note_child_status, poll_is_due, ChildStatus, Chooser, Frame,
    PanePlan, SidebarFrame,
};
use crate::chooser_laws::{
    law_client_is_resized_with_its_area, law_missing_client_is_started,
    law_sidebar_lists_sessions_with_their_panes, row_of_session,
};
use crate::error::VmuxError;
use crate::input::{
    action_views, drain, drain_host_input, process_host_mouse_event, ActionView, DrainOutcome,
    HostAction, MouseRouting, MouseRoutingResult, ScreenView,
};
use crate::input_laws::law_plain_input_passes_through;
use crate::layout::{sidebar_parts, Rect};
use crate::mouse::{
    mouse_token, pane_report, prefix_at, MouseButton, MouseEvent, MouseEventKind, MouseToken,
};
use crate::panes::{pane_views, RecentPane};
use crate::routing_laws::{
    holds_after, in_area, law_area_holds_its_cells, law_event_elsewhere_is_left_alone,
    law_event_in_the_pane_is_sent, law_forwarded_event_is_told_relative_to_the_pane,
    law_only_the_sidebar_is_clicked, law_report_in_the_pane_is_forwarded,
};
use crate::screen::{cell_at, row_spans, screen_to_lines, style_from_cell, CellView, ScreenCell};
use crate::screen_laws::{
    has_look_of, law_cell_is_drawn_with_its_look, law_character_has_the_look_of_its_cell,
    law_screen_is_drawn_row_by_row, shown_by, styles_of,
};
use crate::sidebar::{build_sidebar_rows, row_views, shown_panes, sidebar_rows, RowView, SidebarRow};
use crate::sidebar_laws::{
    law_exit_button_is_the_last_line, law_selected_row_is_seen, law_selection_is_highlighted,
};
use crate::state::AppState;
use crate::state_laws::law_attached_session_is_selected_first;
use crate::styled::{line_views, text_of, Line, Style};
use crate::text::text_le;
use crate::tmux::TmuxSession;
use vstd::prelude::*;

verus! {

/// Whether the bytes are one whole mouse report that tells of an event at its place in a pane, or
/// at the nearest place there.
pub open spec fn tells_of(bytes: Seq<u8>, mouse: MouseEvent, pane: Rect) -> bool {
    mouse_token(bytes) matches MouseToken::Report(told, len) && {
        &&& len == bytes.len()
        &&& told.modifiers == mouse.modifiers
        &&& if mouse.kind is Up {
            told.kind is Up
        } else {
            told.kind == mouse.kind
        }
        &&& told.column < pane.width && told.row < pane.height
        &&& pane.x <= mouse.column < pane.x + pane.width ==> told.column == mouse.column - pane.x
        &&& mouse.column < pane.x ==> told.column == 0
        &&& mouse.column >= pane.x + pane.width ==> told.column == pane.width - 1
        &&& pane.y <= mouse.row < pane.y + pane.height ==> told.row == mouse.row - pane.y
        &&& mouse.row < pane.y ==> told.row == 0
        &&& mouse.row >= pane.y + pane.height ==> told.row == pane.height - 1
    }
}

/// Every mouse event in the tmux pane, of whatever kind, is handled by sending the client a
/// report of it, and changes nothing that is shown. So does one elsewhere while the pane holds
/// the mouse, unless it is a left click in the sidebar.
pub proof fn law_mouse_event_in_the_pane_is_sent(
    mouse: &MouseEvent,
    pane_area: Rect,
    sidebar_area: Rect,
    rows: &Vec<SidebarRow>,
    list_offset: usize,
    state: &mut AppState,
    captured: &mut bool,
    routing: MouseRouting,
)
    requires
        call_ensures(
            process_host_mouse_event,
            (mouse, pane_area, sidebar_area, rows, list_offset, state, captured),
            routing,
        ),
        pane_area.width > 0 && pane_area.height > 0,
        in_area(pane_area, mouse.column, mouse.row) || *old(captured),
        mouse.kind != MouseEventKind::Down(MouseButton::Left) || !in_area(
            sidebar_area,
            mouse.column,
            mouse.row,
        ),
    ensures
        routing.result == MouseRoutingResult::Handled,
        routing.send matches Some(bytes) && tells_of(bytes@, *mouse, pane_area),
        !routing.restart_pane,
        final(state)@ == old(state)@,
        *final(captured) == (mouse.kind is Down || *old(captured) && !(mouse.kind is Up)),
{
    let screen = ScreenView {
        pane_area,
        sidebar_area,
        rows: row_views(rows@),
        list_offset: list_offset as nat,
    };
    if mouse.kind == MouseEventKind::Down(MouseButton::Left) {
        law_only_the_sidebar_is_clicked(screen, *mouse);
    }
    law_event_in_the_pane_is_sent(screen, *mouse, old(state)@, *old(captured));
    law_forwarded_event_is_told_relative_to_the_pane(*mouse, pane_area);
}

/// A mouse event outside the pane, which does not hold the mouse, is not handled and changes
/// nothing, unless it is a left click in the sidebar.
pub proof fn law_mouse_event_elsewhere_is_not_handled(
    mouse: &MouseEvent,
    pane_area: Rect,
    sidebar_area: Rect,
    rows: &Vec<SidebarRow>,
    list_offset: usize,
    state: &mut AppState,
    captured: &mut bool,
    routing: MouseRouting,
)
    requires
        call_ensures(
            process_host_mouse_event,
            (mouse, pane_area, sidebar_area, rows, list_offset, state, captured),
            routing,
        ),
        !in_area(pane_area, mouse.column, mouse.row),
        !*old(captured),
        mouse.kind != MouseEventKind::Down(MouseButton::Left) || !in_area(
            sidebar_area,
            mouse.column,
            mouse.row,
        ),
    ensures
        routing.result == MouseRoutingResult::NotHandled,
        routing.send is None,
        !routing.restart_pane,
        final(state)@ == old(state)@,
        !*final(captured),
{
    let screen = ScreenView {
        pane_area,
        sidebar_area,
        rows: row_views(rows@),
        list_offset: list_offset as nat,
    };
    if mouse.kind == MouseEventKind::Down(MouseButton::Left) {
        law_only_the_sidebar_is_clicked(screen, *mouse);
    }
    law_event_elsewhere_is_left_alone(screen, *mouse, old(state)@);
}

/// A left click in the sidebar hits the row that is drawn there: the one so many lines below the
/// first that is seen. It selects the session, or the pane and its session, and wants another
/// tmux client unless just that was selected. On the last line of the sidebar it exits.
pub proof fn law_left_click_selects_the_row_drawn_there(
    mouse: &MouseEvent,
    pane_area: Rect,
    sidebar_area: Rect,
    rows: &Vec<SidebarRow>,
    list_offset: usize,
    state: &mut AppState,
    captured: &mut bool,
    routing: MouseRouting,
)
    requires
        call_ensures(
            process_host_mouse_event,
            (mouse, pane_area, sidebar_area, rows, list_offset, state, captured),
            routing,
        ),
        mouse.kind == MouseEventKind::Down(MouseButton::Left),
        in_area(sidebar_area, mouse.column, mouse.row),
        sidebar_area.height >= 2,
        sidebar_area.y + sidebar_area.height < 0xffff,
    ensures
        ({
            let at = list_offset + (mouse.row - sidebar_area.y);
            let before = old(state)@;
            if mouse.row == sidebar_area.y + sidebar_area.height - 1 {
                routing.result == MouseRoutingResult::Exit && final(state)@ == before
                    && routing.send is None && !routing.restart_pane && !*final(captured)
            } else if at < rows@.len() {
                match rows@[at] {
                    SidebarRow::Session { session_index } => session_index < before.sessions.len()
                        ==> {
                        &&& routing.result == MouseRoutingResult::Handled
                        &&& routing.send is None && !*final(captured)
                        &&& final(state)@.selected == session_index
                        &&& final(state)@.selected_pane is None
                        &&& final(state)@.sessions == before.sessions
                        &&& final(state)@.recent == before.recent
                        &&& routing.restart_pane == (before.selected != session_index
                            || before.selected_pane is Some)
                    },
                    SidebarRow::Pane { session_index, pane } => session_index
                        < before.sessions.len() ==> {
                        &&& routing.result == MouseRoutingResult::Handled
                        &&& routing.send is None && !*final(captured)
                        &&& final(state)@.selected == session_index
                        &&& final(state)@.selected_pane == Some(pane.pane_id@)
                        &&& final(state)@.sessions == before.sessions
                        &&& final(state)@.recent == before.recent
                        &&& routing.restart_pane == (before.selected != session_index
                            || before.selected_pane != Some(pane.pane_id@))
                    },
                    SidebarRow::Spacer => final(state)@ == before && !routing.restart_pane
                        && routing.result != MouseRoutingResult::Exit,
                }
            } else {
                final(state)@ == before && !routing.restart_pane && routing.result
                    != MouseRoutingResult::Exit
            }
        }),
{
    let at = list_offset + (mouse.row - sidebar_area.y);
    let (body, exit) = sidebar_parts(sidebar_area);
    assert(rows.len() == rows@.len());
    assert(body.x == sidebar_area.x && body.width == sidebar_area.width);
    assert(exit.x == sidebar_area.x && exit.width == sidebar_area.width);
    assert(body.y == sidebar_area.y && body.height == sidebar_area.height - 1);
    assert(exit.y == sidebar_area.y + body.height && exit.height == 1);
    law_area_holds_its_cells(body, mouse.column, mouse.row);
    law_area_holds_its_cells(exit, mouse.column, mouse.row);
    law_exit_button_is_the_last_line(sidebar_area, mouse.column, mouse.row);
    law_area_holds_its_cells(sidebar_area, mouse.column, mouse.row);
    if at < rows@.len() {
        assert(row_views(rows@)[at] == rows@[at]@);
    }
}

/// Input without an escape goes to the tmux client as it is, at once and in one piece; nothing
/// stays pending, and nothing that is shown changes.
pub proof fn law_typed_text_is_sent(
    pending: &mut Vec<u8>,
    pane_area: Rect,
    sidebar_area: Rect,
    rows: &Vec<SidebarRow>,
    list_offset: usize,
    state: &mut AppState,
    captured: &mut bool,
    outcome: DrainOutcome,
)
    requires
        call_ensures(
            drain_host_input,
            (pending, pane_area, sidebar_area, rows, list_offset, state, captured),
            outcome,
        ),
        old(pending)@.len() > 0,
        !old(pending)@.contains(0x1bu8),
    ensures
        outcome.actions@.len() == 1,
        outcome.actions@[0] matches HostAction::Send(bytes) && bytes@ == old(pending)@,
        !outcome.exit,
        final(pending)@.len() == 0,
        final(state)@ == old(state)@,
        *final(captured) == *old(captured),
{
    let bytes = old(pending)@;
    let screen = ScreenView {
        pane_area,
        sidebar_area,
        rows: row_views(rows@),
        list_offset: list_offset as nat,
    };
    let prefix = crate::mouse::mouse_prefix();
    assert forall|at: int| !#[trigger] prefix_at(bytes, at) by {
        if prefix_at(bytes, at) {
            assert(bytes.subrange(at, at + 3)[0] == prefix[0]);
            assert(bytes.contains(bytes[at]));
        }
    }
    if prefix.is_suffix_of(bytes) {
        let tail = bytes.subrange(bytes.len() - 3, bytes.len() as int);
        assert(tail[0] == prefix[0]);
        assert(bytes.contains(bytes[bytes.len() - 3]));
    }
    if prefix.take(2).is_suffix_of(bytes) {
        let tail = bytes.subrange(bytes.len() - 2, bytes.len() as int);
        assert(tail[0] == prefix.take(2)[0]);
        assert(bytes.contains(bytes[bytes.len() - 2]));
    }
    law_plain_input_passes_through(screen, bytes, old(state)@, *old(captured));
    assert(bytes.take(bytes.len() as int) =~= bytes);
    assert(bytes.skip(bytes.len() as int).len() == 0);
    assert(action_views(outcome.actions@).len() == outcome.actions@.len());
    assert(action_views(outcome.actions@)[0] == outcome.actions@[0]@);
}

/// The report of a mouse event in the tmux pane is taken from the input, and the client is sent
/// one that tells of the event at its place in the pane.
pub proof fn law_report_of_an_event_in_the_pane_is_sent(
    pending: &mut Vec<u8>,
    pane_area: Rect,
    sidebar_area: Rect,
    rows: &Vec<SidebarRow>,
    list_offset: usize,
    state: &mut AppState,
    captured: &mut bool,
    outcome: DrainOutcome,
    event: MouseEvent,
)
    requires
        call_ensures(
            drain_host_input,
            (pending, pane_area, sidebar_area, rows, list_offset, state, captured),
            outcome,
        ),
        mouse_token(old(pending)@) == MouseToken::Report(event, old(pending)@.len()),
        in_area(pane_area, event.column, event.row),
        !in_area(sidebar_area, event.column, event.row),
    ensures
        outcome.actions@.len() == 1,
        outcome.actions@[0] matches HostAction::Send(bytes) && tells_of(bytes@, event, pane_area),
        !outcome.exit,
        final(pending)@.len() == 0,
        final(state)@ == old(state)@,
        *final(captured) == (event.kind is Down || *old(captured) && !(event.kind is Up)),
{
    let bytes = old(pending)@;
    let screen = ScreenView {
        pane_area,
        sidebar_area,
        rows: row_views(rows@),
        list_offset: list_offset as nat,
    };
    law_only_the_sidebar_is_clicked(screen, event);
    law_report_in_the_pane_is_forwarded(
        screen,
        bytes,
        old(state)@,
        *old(captured),
        event,
        bytes.len(),
    );
    law_forwarded_event_is_told_relative_to_the_pane(event, pane_area);
    let rest = bytes.skip(bytes.len() as int);
    assert(rest =~= Seq::empty());
    assert forall|at: int| !#[trigger] prefix_at(rest, at) by {}
    let held = holds_after(event.kind, *old(captured));
    law_plain_input_passes_through(screen, rest, old(state)@, held);
    assert(rest.skip(0) =~= rest);
    let sent = seq![ActionView::Send(pane_report(event, pane_area))];
    assert(sent + Seq::<ActionView>::empty() =~= sent);
    assert(action_views(outcome.actions@).len() == outcome.actions@.len());
    assert(action_views(outcome.actions@)[0] == outcome.actions@[0]@);
}

/// The sidebar takes 24 columns at the right of a terminal that is wide enough, and the pane the
/// rest, at full height.
pub proof fn law_frame_is_cut_into_pane_and_sidebar(
    chooser: &mut Chooser,
    width: u16,
    height: u16,
    frame: Frame,
)
    requires
        call_ensures(Chooser::begin_frame, (chooser, width, height), frame),
        width >= 25,
    ensures
        frame.pane_area == (Rect { x: 0, y: 0, width: (width - 24) as u16, height }),
        frame.sidebar_area == (Rect { x: (width - 24) as u16, y: 0, width: 24, height }),
{
}

/// A second frame resizes the tmux client to the new area of its pane if the terminal has
/// changed in width or height in between, and keeps it as it is if not; no other is started.
pub proof fn law_second_frame_resizes_the_client(
    chooser: &mut Chooser,
    width: u16,
    height: u16,
    frame: Frame,
    later: &mut Chooser,
    later_width: u16,
    later_height: u16,
    later_frame: Frame,
)
    requires
        call_ensures(Chooser::begin_frame, (chooser, width, height), frame),
        old(later)@ == final(chooser)@,
        call_ensures(Chooser::begin_frame, (later, later_width, later_height), later_frame),
        old(chooser)@.app.sessions.len() > 0,
        width >= 25,
        later_width >= 25,
    ensures
        width == later_width && height == later_height ==> later_frame.pane is Keep,
        width != later_width || height != later_height ==> later_frame.pane == (PanePlan::Resize {
            width: (later_width - 24) as u16,
            height: later_height,
        }),
{
    law_client_is_resized_with_its_area(old(chooser)@, frame.pane_area, later_frame.pane_area);
}

/// Without a tmux client, a frame starts one for the session that is selected, and the pane if
/// one is.
pub proof fn law_frame_starts_a_client_for_the_selection(
    chooser: &mut Chooser,
    width: u16,
    height: u16,
    frame: Frame,
)
    requires
        call_ensures(Chooser::begin_frame, (chooser, width, height), frame),
        !old(chooser)@.has_pane,
        old(chooser)@.app.sessions.len() > 0,
        old(chooser)@.app.selection_in_range(),
    ensures
        frame.pane matches PanePlan::Spawn { session_id, pane_id } && {
            let app = old(chooser)@.app;
            &&& session_id@ == app.sessions[app.selected as int].id@
            &&& match pane_id {
                Some(pane_id) => app.selected_pane == Some(pane_id@),
                None => app.selected_pane is None,
            }
        },
        final(chooser)@.has_pane,
{
    law_missing_client_is_started(old(chooser)@, frame.pane_area);
}

/// A frame lists every session and under it its recent panes, and changes neither the selection
/// nor what is pending.
pub proof fn law_frame_has_the_rows_of_the_state(
    chooser: &mut Chooser,
    width: u16,
    height: u16,
    frame: Frame,
    index: nat,
)
    requires
        call_ensures(Chooser::begin_frame, (chooser, width, height), frame),
        index < old(chooser)@.app.sessions.len(),
    ensures
        ({
            let app = old(chooser)@.app;
            let at = row_of_session(app, index);
            &&& at < frame.rows@.len()
            &&& frame.rows@[at] matches SidebarRow::Session { session_index } && session_index
                == index
            &&& forall|i: int|
                0 <= i < shown_panes(app, index as int).len() ==> (
                #[trigger] frame.rows@[at + 1 + i])@ == (RowView::Pane {
                    session_index: index,
                    pane: shown_panes(app, index as int)[i],
                })
        }),
        final(chooser)@.app == old(chooser)@.app,
        final(chooser)@.pending == old(chooser)@.pending,
        final(chooser)@.captured == old(chooser)@.captured,
        final(chooser)@.list_offset == old(chooser)@.list_offset,
{
    let app = old(chooser)@.app;
    law_sidebar_lists_sessions_with_their_panes(app, index);
    let rows = row_views(frame.rows@);
    let at = row_of_session(app, index);
    assert(rows[at] == frame.rows@[at]@);
    assert forall|i: int| 0 <= i < shown_panes(app, index as int).len() implies (
    #[trigger] frame.rows@[at + 1 + i])@ == (RowView::Pane {
        session_index: index,
        pane: shown_panes(app, index as int)[i],
    }) by {
        assert(rows[at + 1 + i] == frame.rows@[at + 1 + i]@);
    }
}

/// The sidebar is drawn with a line for each row, the selection highlighted and in sight, and
/// the exit button on its last line.
pub proof fn law_drawn_sidebar_shows_the_selection(
    chooser: &mut Chooser,
    frame: &Frame,
    drawn: SidebarFrame,
)
    requires
        call_ensures(Chooser::draw_sidebar, (chooser, frame), drawn),
        row_views(frame.rows@) == sidebar_rows(old(chooser)@.app),
        old(chooser)@.app.sessions.len() > 0,
        old(chooser)@.app.selection_in_range(),
        frame.sidebar_area.height >= 2,
        frame.sidebar_area.y + frame.sidebar_area.height < 0xffff,
    ensures
        drawn.items@.len() == frame.rows@.len(),
        drawn.selected < frame.rows@.len(),
        drawn.offset <= drawn.selected < drawn.offset + drawn.body.height,
        match frame.rows@[drawn.selected as int] {
            SidebarRow::Session { session_index } => session_index == old(chooser)@.app.selected,
            SidebarRow::Pane { session_index, pane } => session_index == old(chooser)@.app.selected
                && old(chooser)@.app.selected_pane == Some(pane.pane_id@),
            SidebarRow::Spacer => false,
        },
        drawn.exit_button.height == 1,
        drawn.exit_button.y == frame.sidebar_area.y + frame.sidebar_area.height - 1,
        drawn.body.y == frame.sidebar_area.y,
        drawn.body.height == frame.sidebar_area.height - 1,
        final(chooser)@.app == old(chooser)@.app,
        final(chooser)@.list_offset == drawn.offset,
        final(chooser)@.has_pane == old(chooser)@.has_pane,
        final(chooser)@.pending == old(chooser)@.pending,
{
    let app = old(chooser)@.app;
    law_selection_is_highlighted(app);
    law_exit_button_is_the_last_line(frame.sidebar_area, 0, 0);
    assert(line_views(drawn.items@).len() == drawn.items@.len());
    assert(row_views(frame.rows@).len() == frame.rows@.len());
    assert(row_views(frame.rows@)[drawn.selected as int]
        == frame.rows@[drawn.selected as int]@);
    law_selected_row_is_seen(
        old(chooser)@.list_offset,
        drawn.selected as nat,
        drawn.body.height as nat,
        frame.rows@.len(),
    );
}

/// Bytes that come in are added after those that are pending; nothing else changes.
pub proof fn law_fed_bytes_are_pending(chooser: &mut Chooser, chunk: &Vec<u8>)
    requires
        call_ensures(Chooser::feed, (chooser, chunk), ()),
    ensures
        final(chooser)@.pending == old(chooser)@.pending + chunk@,
        final(chooser)@.app == old(chooser)@.app,
        final(chooser)@.captured == old(chooser)@.captured,
        final(chooser)@.has_pane == old(chooser)@.has_pane,
        final(chooser)@.list_offset == old(chooser)@.list_offset,
        final(chooser)@.last_pane_area == old(chooser)@.last_pane_area,
{
}

/// What is handled of the input is what draining the pending bytes gives on the screen of the
/// frame. The client is given up if that says so, and only then.
pub proof fn law_handled_input_is_drained(
    chooser: &mut Chooser,
    frame: &Frame,
    outcome: DrainOutcome,
)
    requires
        call_ensures(Chooser::handle_input, (chooser, frame), outcome),
    ensures
        ({
            let drained = drain(
                ScreenView {
                    pane_area: frame.pane_area,
                    sidebar_area: frame.sidebar_area,
                    rows: row_views(frame.rows@),
                    list_offset: old(chooser)@.list_offset,
                },
                old(chooser)@.pending,
                old(chooser)@.app,
                old(chooser)@.captured,
            );
            &&& action_views(outcome.actions@) == drained.actions
            &&& outcome.exit == drained.exit
            &&& final(chooser)@.app == drained.app
            &&& final(chooser)@.pending == drained.pending
            &&& final(chooser)@.captured == drained.captured
            &&& final(chooser)@.list_offset == old(chooser)@.list_offset
            &&& final(chooser)@.last_pane_area == old(chooser)@.last_pane_area
            &&& final(chooser)@.has_pane == (old(chooser)@.has_pane && forall|i: int|
                0 <= i < outcome.actions@.len() ==> (#[trigger] outcome.actions@[i]) is Send)
        }),
{
    let actions = action_views(outcome.actions@);
    assert forall|i: int| 0 <= i < outcome.actions@.len() implies (
    #[trigger] outcome.actions@[i]) is Send == !(actions[i] is RestartPane) by {
        assert(actions[i] == outcome.actions@[i]@);
    }
    crate::chooser_laws::law_input_gives_the_client_up_only_when_told(
        old(chooser)@,
        ScreenView {
            pane_area: frame.pane_area,
            sidebar_area: frame.sidebar_area,
            rows: row_views(frame.rows@),
            list_offset: old(chooser)@.list_offset,
        },
    );
    assert(actions.len() == outcome.actions@.len());
    if forall|i: int| 0 <= i < outcome.actions@.len() ==> (#[trigger] outcome.actions@[i]) is Send {
        assert forall|i: int| 0 <= i < actions.len() implies (#[trigger] actions[i]) is Send by {
            assert(outcome.actions@[i] is Send);
            assert(actions[i] == outcome.actions@[i]@);
        }
    } else {
        let i = choose|i: int|
            0 <= i < outcome.actions@.len() && !((#[trigger] outcome.actions@[i]) is Send);
        assert(actions[i] == outcome.actions@[i]@);
        assert(!(actions[i] is Send));
    }
}

/// The chooser starts if there are sessions, and only then. It lists all of them by name, has the
/// first attached one selected, or the first of all if none is, and has neither a client nor
/// anything pending.
pub proof fn law_chooser_starts_on_the_attached_session(
    sessions: Vec<TmuxSession>,
    chooser: Option<Chooser>,
    i: int,
    j: int,
)
    requires
        call_ensures(choose_among, (sessions,), chooser),
    ensures
        chooser is Some == (sessions@.len() > 0),
        chooser matches Some(chooser) ==> {
            let listed = chooser.state.sessions@;
            &&& listed.to_multiset() == sessions@.to_multiset()
            &&& 0 <= i < j < listed.len() ==> text_le(listed[i].name@, listed[j].name@)
            &&& chooser.state.selected < listed.len()
            &&& 0 <= i < listed.len() && listed[i].attached ==> chooser.state.selected <= i
                && listed[chooser.state.selected as int].attached
            &&& !listed[chooser.state.selected as int].attached ==> chooser.state.selected == 0
            &&& chooser.state.selected_pane is None
            &&& chooser.pending@.len() == 0
            &&& !chooser.has_pane && !chooser.tmux_mouse_captured && chooser.list_offset == 0
        },
{
    if let Some(chooser) = chooser {
        let listed = chooser.state.sessions@;
        assert(chooser@.app == chooser.state@);
        law_attached_session_is_selected_first(listed, chooser.state.selected as int);
        crate::state_laws::law_sessions_are_listed_by_name(
            listed,
            sessions@,
            i,
            j,
            Seq::empty(),
        );
        assert(chooser@.app.selected_pane is None);
        assert(chooser@.pending.len() == 0);
    }
}

/// Once panes were read, just these are known, and the selection stays on its session.
pub proof fn law_refreshed_panes_are_known(
    chooser: &mut Chooser,
    panes: Vec<RecentPane>,
    session_id: Seq<char>,
    pane_id: Seq<char>,
)
    requires
        call_ensures(Chooser::refresh_recent_activity, (chooser, panes), ()),
    ensures
        final(chooser)@.app.recent.contains_key((session_id, pane_id)) == exists|i: int|
            0 <= i < panes@.len() && (#[trigger] panes@[i]).session_id@ == session_id
                && panes@[i].pane_id@ == pane_id,
        final(chooser)@.app.sessions == old(chooser)@.app.sessions,
        final(chooser)@.app.selected == old(chooser)@.app.selected,
        final(chooser)@.pending == old(chooser)@.pending,
        final(chooser)@.has_pane == old(chooser)@.has_pane,
{
    let views = pane_views(panes@);
    crate::state_laws::law_observed_panes_are_known(
        old(chooser)@.app,
        views,
        (session_id, pane_id),
    );
    assert forall|i: int| 0 <= i < panes@.len() implies #[trigger] views[i] == panes@[i]@ by {}
    if exists|i: int|
        0 <= i < views.len() && (#[trigger] views[i]).session_id == session_id && views[i].pane_id
            == pane_id {
        let i = choose|i: int|
            0 <= i < views.len() && (#[trigger] views[i]).session_id == session_id
                && views[i].pane_id == pane_id;
        assert(panes@[i].session_id@ == session_id);
    }
    if exists|i: int|
        0 <= i < panes@.len() && (#[trigger] panes@[i]).session_id@ == session_id
            && panes@[i].pane_id@ == pane_id {
        let i = choose|i: int|
            0 <= i < panes@.len() && (#[trigger] panes@[i]).session_id@ == session_id
                && panes@[i].pane_id@ == pane_id;
        assert(views[i].session_id == session_id);
    }
}

/// A cell is drawn with its own look: both colors, and all of bold, italic, underlined and
/// reversed.
pub proof fn law_style_is_that_of_the_cell(cell: &ScreenCell, style: Style)
    requires
        call_ensures(style_from_cell, (cell,), style),
    ensures
        has_look_of(style, cell@),
{
    law_cell_is_drawn_with_its_look(cell@);
}

/// A screen is drawn as so many lines as the pane is high. Each character that a cell shows
/// stands in the line of its row, after what the cells before it show, with the look of the cell.
pub proof fn law_screen_is_drawn_cell_by_cell(
    screen: &vt100::Screen,
    width: u16,
    height: u16,
    lines: Vec<Line>,
    row: int,
    cells: Seq<Option<CellView>>,
    col: int,
    cell: CellView,
    i: int,
)
    requires
        call_ensures(screen_to_lines, (screen, width, height), lines),
        0 <= row < height,
        cells.len() == width,
        forall|c: int| 0 <= c < width ==> #[trigger] cells[c] == cell_at(*screen, row, c),
        0 <= col < width,
        cells[col] == Some(cell),
        !cell.wide_continuation,
        0 <= i < shown_by(Some(cell)).len(),
    ensures
        lines@.len() == height,
        ({
            let line = lines@[row]@;
            let at = text_of(row_spans(cells.take(col))).len() + i;
            &&& at < text_of(line).len()
            &&& text_of(line)[at] == shown_by(Some(cell))[i]
            &&& styles_of(line).len() == text_of(line).len()
            &&& has_look_of(styles_of(line)[at], cell)
        }),
{
    law_screen_is_drawn_row_by_row(*screen, width as nat, height as nat, row, cells);
    assert(line_views(lines@).len() == lines@.len());
    assert(line_views(lines@)[row] == lines@[row]@);
    law_character_has_the_look_of_its_cell(cells, col, cell, i);
}

/// That the tmux client has ended is told once: when it is first found not to run.
pub proof fn law_end_of_the_client_is_told_once(
    exited: &mut bool,
    status: ChildStatus,
    ended: bool,
    later: &mut bool,
    later_status: ChildStatus,
    later_ended: bool,
)
    requires
        call_ensures(note_child_status, (exited, status), ended),
        *old(later) == *final(exited),
        call_ensures(note_child_status, (later, later_status), later_ended),
    ensures
        *old(exited) ==> !ended && !later_ended && *final(exited) && *final(later),
        status is Running && !*old(exited) ==> !ended && !*final(exited),
        !(status is Running) && !*old(exited) ==> ended && *final(exited),
        ended ==> !later_ended && *final(later),
        !ended && !*final(exited) ==> later_ended == !(later_status is Running),
{
}

/// A frame ends the program with an error if the tmux client has ended, and without one if only
/// one frame was asked for; else the next one follows.
pub proof fn law_ended_client_is_an_error(
    pane_exited: bool,
    one_frame_only: bool,
    stop: Result<bool, VmuxError>,
)
    requires
        call_ensures(after_frame, (pane_exited, one_frame_only), stop),
    ensures
        pane_exited ==> (stop matches Err(VmuxError::Terminal(words)) && words@
            == "embedded tmux client exited"@),
        !pane_exited ==> stop == Ok::<bool, VmuxError>(one_frame_only),
{
}

/// The log is read again half a second after it was, and not before.
pub proof fn law_log_is_read_twice_a_second(elapsed: u128, due: bool)
    requires
        call_ensures(poll_is_due, (elapsed,), due),
    ensures
        due == (elapsed >= 500_000_000),
{
}

/// The rows that are built show every session, and under it its recent panes in order.
pub proof fn law_built_rows_show_every_session(
    state: &AppState,
    rows: Vec<SidebarRow>,
    index: nat,
)
    requires
        call_ensures(build_sidebar_rows, (state,), rows),
        index < state.sessions@.len(),
    ensures
        ({
            let panes = shown_panes(state@, index as int);
            let at = row_of_session(state@, index);
            &&& at < rows@.len() && (rows@[at] matches SidebarRow::Session { session_index }
                && session_index == index)
            &&& at + panes.len() < rows@.len()
            &&& forall|i: int|
                0 <= i < panes.len() ==> (#[trigger] rows@[at + 1 + i])@ == (RowView::Pane {
                    session_index: index,
                    pane: panes[i],
                })
            &&& index + 1 == state.sessions@.len() ==> rows@.len() == at + 1 + panes.len()
            &&& index + 1 < state.sessions@.len() ==> rows@[at + 1 + panes.len()] is Spacer
        }),
{
    let app = state@;
    law_sidebar_lists_sessions_with_their_panes(app, index);
    let views = row_views(rows@);
    let at = row_of_session(app, index);
    let panes = shown_panes(app, index as int);
    assert(views.len() == rows@.len());
    assert(views[at] == rows@[at]@);
    assert forall|i: int| 0 <= i < panes.len() implies (#[trigger] rows@[at + 1 + i])@ == (
    RowView::Pane { session_index: index, pane: panes[i] }) by {
        assert(views[at + 1 + i] == rows@[at + 1 + i]@);
    }
    if index + 1 < app.sessions.len() {
        assert(views[at + 1 + panes.len()] == rows@[at + 1 + panes.len()]@);
    }
}

} // verus!

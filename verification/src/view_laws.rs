//! What the views of the types tell: everything that a value holds.

use crate::chooser::{Chooser, PanePlan, PlanView};
use crate::input::{action_views, bytes_view, ActionView, HostAction};
use crate::json::{raw_views, JsonField, JsonFieldView};
use crate::lines::byte_views_of;
use crate::mouse::{MouseToken, ParsedSgrMouseSequence};
use crate::notify::{
    timed_views, NotificationLedgerRecord, NotificationLedgerSession, SocketView, TmuxSocketSpec,
};
use crate::panes::{pane_views, RecentPane, Timestamp};
use crate::recent_activity::{EventView, RecentPaneEvent};
use crate::screen::{cell_view, cell_views, ScreenCell};
use crate::sidebar::{row_views, RowView, SidebarRow};
use crate::state::AppState;
use crate::styled::{line_views, Line};
use crate::text::{option_view, views_of};
use crate::tmux::{session_views, window_views, TmuxBellWindow, TmuxCommand, TmuxSession};
use vstd::prelude::*;

verus! {

/// A pane is seen with its ids, its title and its time.
pub proof fn law_view_of_a_pane(panes: Seq<RecentPane>, i: int)
    requires
        0 <= i < panes.len(),
    ensures
        pane_views(panes).len() == panes.len(),
        pane_views(panes)[i].session_id == panes[i].session_id@,
        pane_views(panes)[i].pane_id == panes[i].pane_id@,
        pane_views(panes)[i].title == panes[i].title@,
        pane_views(panes)[i].observed_at == panes[i].observed_at.nanos,
        pane_views(panes)[i].key() == (panes[i].session_id@, panes[i].pane_id@),
{
}

/// An event is seen with its kind, its ids, its text and its time.
pub proof fn law_view_of_an_event(event: RecentPaneEvent)
    ensures
        match event {
            RecentPaneEvent::Notify(notify) => event@ == (EventView::Notify {
                session_id: notify.session_id@,
                pane_id: notify.pane_id@,
                pane_display_text: notify.pane_display_text@,
                notify_time: notify.notify_time,
            }),
            RecentPaneEvent::Clear(clear) => event@ == (EventView::Clear {
                session_id: clear.session_id@,
                pane_id: clear.pane_id@,
            }),
        },
        event@.key() == match event {
            RecentPaneEvent::Notify(notify) => (notify.session_id@, notify.pane_id@),
            RecentPaneEvent::Clear(clear) => (clear.session_id@, clear.pane_id@),
        },
{
}

/// A session is seen with its id, its name, its windows and whether it is attached; a window with
/// its session and its id.
pub proof fn law_view_of_a_session(
    sessions: Seq<TmuxSession>,
    windows: Seq<TmuxBellWindow>,
    i: int,
)
    requires
        0 <= i < sessions.len(),
        i < windows.len(),
    ensures
        session_views(sessions).len() == sessions.len(),
        session_views(sessions)[i].id == sessions[i].id@,
        session_views(sessions)[i].name == sessions[i].name@,
        session_views(sessions)[i].windows == sessions[i].windows,
        session_views(sessions)[i].attached == sessions[i].attached,
        window_views(windows).len() == windows.len(),
        window_views(windows)[i].session_name == windows[i].session_name@,
        window_views(windows)[i].window_id == windows[i].window_id@,
{
}

/// A command is seen with its program and all its arguments.
pub proof fn law_view_of_a_command(command: TmuxCommand, i: int)
    requires
        0 <= i < command.args@.len(),
    ensures
        command@.program == command.program@,
        command@.args.len() == command.args@.len(),
        command@.args[i] == command.args@[i]@,
{
}

/// A row is seen with its session, and with its pane if it has one.
pub proof fn law_view_of_a_row(rows: Seq<SidebarRow>, i: int)
    requires
        0 <= i < rows.len(),
    ensures
        row_views(rows).len() == rows.len(),
        match rows[i] {
            SidebarRow::Session { session_index } => row_views(rows)[i] == (RowView::Session {
                session_index: session_index as nat,
            }),
            SidebarRow::Pane { session_index, pane } => row_views(rows)[i] == (RowView::Pane {
                session_index: session_index as nat,
                pane: pane@,
            }),
            SidebarRow::Spacer => row_views(rows)[i] is Spacer,
        },
{
}

/// What is to be done is seen with all the bytes to send.
pub proof fn law_view_of_an_action(actions: Seq<HostAction>, i: int, bytes: Vec<u8>)
    requires
        0 <= i < actions.len(),
    ensures
        action_views(actions).len() == actions.len(),
        match actions[i] {
            HostAction::Send(bytes) => action_views(actions)[i] == ActionView::Send(bytes@),
            HostAction::RestartPane => action_views(actions)[i] is RestartPane,
        },
        bytes_view(Some(bytes)) == Some(bytes@),
        bytes_view(None) is None,
{
}

/// A plan is seen with its size, or with its session and its pane.
pub proof fn law_view_of_a_plan(plan: PanePlan)
    ensures
        match plan {
            PanePlan::Keep => plan@ is Keep,
            PanePlan::Resize { width, height } => plan@ == (PlanView::Resize { width, height }),
            PanePlan::Spawn { session_id, pane_id } => plan@ == (PlanView::Spawn {
                session_id: session_id@,
                pane_id: match pane_id {
                    Some(pane_id) => Some(pane_id@),
                    None => None,
                },
            }),
        },
{
}

/// The state is seen with its sessions, its selection and its recent panes; the chooser with
/// these, with what is pending and with all that it remembers of the last frame.
pub proof fn law_view_of_the_chooser(chooser: Chooser, state: AppState)
    ensures
        state@.sessions == state.sessions@,
        state@.selected == state.selected,
        state@.selected_pane == match state.selected_pane {
            Some(target) => Some(target.pane_id@),
            None => None,
        },
        state@.recent == state.recent_panes@,
        chooser@.app == chooser.state@,
        chooser@.list_offset == chooser.list_offset,
        chooser@.pending == chooser.pending@,
        chooser@.captured == chooser.tmux_mouse_captured,
        chooser@.last_pane_area == chooser.last_pane_area,
        chooser@.has_pane == chooser.has_pane,
{
}

/// A line is seen with all its spans, each with its text and its style.
pub proof fn law_view_of_a_line(lines: Seq<Line>, i: int, j: int)
    requires
        0 <= i < lines.len(),
        0 <= j < lines[i].spans@.len(),
    ensures
        line_views(lines).len() == lines.len(),
        line_views(lines)[i].len() == lines[i].spans@.len(),
        line_views(lines)[i][j].content == lines[i].spans@[j].content@,
        line_views(lines)[i][j].style == lines[i].spans@[j].style,
{
}

/// A cell is seen with its text, its colors and all that it is drawn with.
pub proof fn law_view_of_a_cell(cells: Seq<Option<ScreenCell>>, i: int, cell: ScreenCell)
    requires
        0 <= i < cells.len(),
    ensures
        cell_views(cells).len() == cells.len(),
        cells[i] is None ==> cell_views(cells)[i] is None,
        cells[i] == Some(cell) ==> cell_views(cells)[i] == Some(cell@),
        cell_view(Some(cell)) == Some(cell@),
        cell@.contents == cell.contents@,
        cell@.has_contents == cell.has_contents,
        cell@.wide_continuation == cell.wide_continuation,
        cell@.fgcolor == cell.fgcolor,
        cell@.bgcolor == cell.bgcolor,
        cell@.bold == cell.bold,
        cell@.italic == cell.italic,
        cell@.underline == cell.underline,
        cell@.inverse == cell.inverse,
{
}

/// What was parsed of some input is seen with the event and the length of its report.
pub proof fn law_view_of_a_parsed_report(parsed: ParsedSgrMouseSequence)
    ensures
        match parsed {
            ParsedSgrMouseSequence::Complete { event, consumed } => parsed@ == MouseToken::Report(
                event,
                consumed as nat,
            ),
            ParsedSgrMouseSequence::Incomplete => parsed@ is Partial,
            ParsedSgrMouseSequence::Invalid => parsed@ is NoReport,
        },
{
}

/// The value of a member is seen as it is.
pub proof fn law_view_of_a_member(field: JsonField, members: Seq<(String, String)>, i: int)
    requires
        0 <= i < members.len(),
    ensures
        match field {
            JsonField::Null => field@ is Null,
            JsonField::Bool(value) => field@ == JsonFieldView::Bool(value),
            JsonField::Number(number) => field@ == JsonFieldView::Number(number),
            JsonField::Text(text) => field@ == JsonFieldView::Text(text@),
            JsonField::Array => field@ is Array,
            JsonField::Object => field@ is Object,
        },
        raw_views(members).len() == members.len(),
        raw_views(members)[i] == (members[i].0@, members[i].1@),
{
}

/// A record is seen with all that it tells, and so is where it comes from.
pub proof fn law_view_of_a_record(
    record: NotificationLedgerRecord,
    session: NotificationLedgerSession,
    socket: TmuxSocketSpec,
    text: String,
)
    ensures
        record@.version == record.version,
        record@.kind == record.kind@,
        record@.source == record.source@,
        record@.timestamp == record.timestamp,
        record@.title == record.title@,
        record@.subtitle == record.subtitle@,
        record@.body == record.body@,
        record@.latest_assistant_message == record.latest_assistant_message@,
        record@.cwd == record.cwd@,
        record@.platform == option_view(record.platform),
        record@.terminal_bundle_id == option_view(record.terminal_bundle_id),
        record@.session == record.session@,
        session@.session_id == option_view(session.session_id),
        session@.session_name == option_view(session.session_name),
        session@.window_id == option_view(session.window_id),
        session@.window_index == session.window_index,
        session@.window_name == option_view(session.window_name),
        session@.pane_id == option_view(session.pane_id),
        session@.client_name == option_view(session.client_name),
        session@.client_pid == session.client_pid,
        match socket {
            TmuxSocketSpec::Named(name) => socket@ == SocketView::Named(name@),
            TmuxSocketSpec::Path(path) => socket@ == SocketView::Path(path@),
        },
        option_view(Some(text)) == Some(text@),
        option_view(None) is None,
{
}

/// Lists of texts, of bytes and of timed windows are seen item by item.
pub proof fn law_view_of_a_list(
    texts: Seq<String>,
    vectors: Seq<Vec<u8>>,
    windows: Seq<(TmuxBellWindow, Timestamp)>,
    i: int,
)
    ensures
        views_of(texts).len() == texts.len(),
        0 <= i < texts.len() ==> views_of(texts)[i] == texts[i]@,
        byte_views_of(vectors).len() == vectors.len(),
        0 <= i < vectors.len() ==> byte_views_of(vectors)[i] == vectors[i]@,
        timed_views(windows).len() == windows.len(),
        0 <= i < windows.len() ==> timed_views(windows)[i].0 == windows[i].0@ && timed_views(
            windows,
        )[i].1 == windows[i].1.nanos,
{
}

} // verus!

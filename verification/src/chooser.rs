//! The chooser: what happens from one frame to the next.
//!
//! The terminal, the tmux client and the event log are elsewhere. The chooser is told what came
//! from them, and says what is to be done about it.

use crate::error::{VmuxError, VmuxErrorView};
use crate::input::{
    action_views, drain, drain_host_input, DrainOutcome, DrainView, HostAction,
    ScreenView,
};
use crate::input_laws::{
    law_input_keeps_the_selection_in_range, law_selection_changes_with_the_client, restarts,
};
use crate::layout::{screen_parts, sidebar_parts, split_area, split_sidebar, Rect};
use crate::order::is_stable_sort_of;
use crate::panes::{pane_views, PaneKey, PaneView, RecentPane};
use crate::sidebar::{
    build_sidebar_rows, pane_rows, row_label, row_views, rows_of_first, selected_row,
    selected_sidebar_row_index, session_rows, shown_panes, sidebar_item, sidebar_rows,
    sync_sidebar_list_offset, synced_offset, RowView, SidebarRow,
};
use crate::state::{initial_selection, AppState, AppView};
use crate::styled::{line_views, Line, SpanView};
use crate::text::option_view;
use crate::tmux::TmuxSession;
use vstd::prelude::*;

verus! {

/// How long recent activity is taken to stay as it was read, in nanoseconds.
pub const RECENT_ACTIVITY_POLL_INTERVAL: u128 = 500_000_000;

/// Whether the event log is to be read again, so many nanoseconds after it was.
pub fn poll_is_due(elapsed: u128) -> (due: bool)
    ensures
        due == (elapsed >= 500_000_000),
{
    elapsed >= RECENT_ACTIVITY_POLL_INTERVAL
}

/// What is to be done about the tmux client before a frame is drawn.
#[derive(Clone, Debug, PartialEq, Eq)]
pub enum PanePlan {
    Keep,
    Resize { width: u16, height: u16 },
    /// Start a client for a session, and focus a pane.
    Spawn { session_id: String, pane_id: Option<String> },
}

pub enum PlanView {
    Keep,
    Resize { width: u16, height: u16 },
    Spawn { session_id: Seq<char>, pane_id: Option<Seq<char>> },
}

impl View for PanePlan {
    type V = PlanView;

    open spec fn view(&self) -> PlanView {
        match *self {
            PanePlan::Keep => PlanView::Keep,
            PanePlan::Resize { width, height } => PlanView::Resize { width, height },
            PanePlan::Spawn { session_id, pane_id } => PlanView::Spawn {
                session_id: session_id@,
                pane_id: option_view(pane_id),
            },
        }
    }
}

/// Where things are in a frame, and what comes before it.
#[derive(Clone, Debug, PartialEq, Eq)]
pub struct Frame {
    pub pane_area: Rect,
    pub sidebar_area: Rect,
    pub rows: Vec<SidebarRow>,
    pub pane: PanePlan,
}

/// The sidebar as it is drawn.
#[derive(Clone, Debug, PartialEq, Eq)]
pub struct SidebarFrame {
    pub body: Rect,
    pub exit_button: Rect,
    /// The first item that is seen.
    pub offset: usize,
    /// The item that is highlighted.
    pub selected: usize,
    pub items: Vec<Line>,
}

#[derive(Clone, Debug)]
pub struct Chooser {
    pub state: AppState,
    pub list_offset: usize,
    /// Input that is not yet dealt with.
    pub pending: Vec<u8>,
    pub tmux_mouse_captured: bool,
    pub last_pane_area: Option<Rect>,
    /// Whether there is a tmux client.
    pub has_pane: bool,
}

pub struct ChooserView {
    pub app: AppView,
    pub list_offset: nat,
    pub pending: Seq<u8>,
    pub captured: bool,
    pub last_pane_area: Option<Rect>,
    pub has_pane: bool,
}

impl View for Chooser {
    type V = ChooserView;

    open spec fn view(&self) -> ChooserView {
        ChooserView {
            app: self.state@,
            list_offset: self.list_offset as nat,
            pending: self.pending@,
            captured: self.tmux_mouse_captured,
            last_pane_area: self.last_pane_area,
            has_pane: self.has_pane,
        }
    }
}

/// The plan for the tmux client when its pane is to be `area`. A client that is missing is
/// started for the selection, and one whose pane has another size or place than before is
/// resized.
pub open spec fn plan_of(chooser: ChooserView, area: Rect) -> PlanView {
    let app = chooser.app;
    if !chooser.has_pane && app.sessions.len() > 0 {
        PlanView::Spawn { session_id: app.selected_session_id(), pane_id: app.selected_pane }
    } else if chooser.has_pane && chooser.last_pane_area != Some(area) {
        PlanView::Resize { width: area.width, height: area.height }
    } else {
        PlanView::Keep
    }
}

/// The chooser after a frame was planned in which the tmux client has `area`.
pub open spec fn framed(chooser: ChooserView, area: Rect) -> ChooserView {
    ChooserView {
        last_pane_area: Some(area),
        has_pane: chooser.has_pane || chooser.app.sessions.len() > 0,
        ..chooser
    }
}

/// The row to highlight: the selected one, or else the first.
pub open spec fn highlighted_row(app: AppView) -> nat {
    match selected_row(app, sidebar_rows(app)) {
        Some(at) => at,
        None => 0,
    }
}

pub open spec fn row_labels(rows: Seq<RowView>, sessions: Seq<TmuxSession>) -> Seq<Seq<SpanView>> {
    rows.map_values(|row: RowView| row_label(row, sessions))
}

/// Every row of the sidebar belongs to a session that is there.
pub proof fn lemma_rows_name_sessions(app: AppView, count: nat, i: int)
    requires
        count <= app.sessions.len(),
        0 <= i < rows_of_first(app, count).len(),
    ensures
        match rows_of_first(app, count)[i] {
            RowView::Session { session_index } => session_index < count,
            RowView::Pane { session_index, .. } => session_index < count,
            RowView::Spacer => true,
        },
    decreases count,
{
    let before = rows_of_first(app, (count - 1) as nat);
    if i < before.len() {
        lemma_rows_name_sessions(app, (count - 1) as nat, i);
    } else {
        let index = (count - 1) as nat;
        let panes = pane_rows(index, shown_panes(app, index as int));
        let own = session_rows(app, index);
        assert(rows_of_first(app, count)[i] == own[i - before.len()]);
        if 0 < i - before.len() <= panes.len() {
            assert(own[i - before.len()] == panes[i - before.len() - 1]);
        }
    }
}

/// Starts the chooser on the sessions that tmux has; without any there is nothing to choose.
pub fn choose_among(sessions: Vec<TmuxSession>) -> (chooser: Option<Chooser>)
    ensures
        chooser is Some == (sessions@.len() > 0),
        chooser matches Some(chooser) ==> {
            &&& is_stable_sort_of(chooser@.app.sessions, sessions@)
            &&& initial_selection(chooser@.app.sessions, chooser@.app.selected as int)
            &&& chooser@.app.selection_in_range()
            &&& chooser@.app.sessions.len() == sessions@.len()
            &&& chooser@ == ChooserView {
                app: AppView {
                    selected_pane: None,
                    recent: Map::<PaneKey, PaneView>::empty(),
                    ..chooser@.app
                },
                list_offset: 0,
                pending: Seq::empty(),
                captured: false,
                last_pane_area: None,
                has_pane: false,
            }
        },
{
    if sessions.len() == 0 {
        return None;
    }
    let ghost given = sessions@;
    let state = AppState::new(sessions);
    proof {
        state@.sessions.to_multiset_ensures();
        given.to_multiset_ensures();
    }
    let chooser = Chooser {
        state,
        list_offset: 0,
        pending: Vec::new(),
        tmux_mouse_captured: false,
        last_pane_area: None,
        has_pane: false,
    };
    assert(chooser.pending@ =~= Seq::empty());
    Some(chooser)
}

impl Chooser {
    /// Takes over the recent panes that were read from the event log.
    pub fn refresh_recent_activity(&mut self, panes: Vec<RecentPane>)
        ensures
            final(self)@ == (ChooserView {
                app: old(self)@.app.observe(pane_views(panes@)),
                ..old(self)@
            }),
    {
        self.state.observe_recent_panes(panes);
    }

    /// Plans a frame for a terminal of the given size.
    pub fn begin_frame(&mut self, width: u16, height: u16) -> (frame: Frame)
        requires
            old(self)@.app.selection_in_range(),
        ensures
            ({
                let (pane_area, sidebar_area) = screen_parts((Rect { x: 0, y: 0, width, height }));
                &&& frame.pane_area == pane_area
                &&& frame.sidebar_area == sidebar_area
                &&& row_views(frame.rows@) == sidebar_rows(old(self)@.app)
                &&& frame.pane@ == plan_of(old(self)@, pane_area)
                &&& final(self)@ == framed(old(self)@, pane_area)
            }),
    {
        let area = Rect { x: 0, y: 0, width, height };
        let parts = split_area(area);
        assert(parts@[0] == screen_parts(area).0);
        assert(parts@[1] == screen_parts(area).1);
        let rows = build_sidebar_rows(&self.state);
        let pane = if !self.has_pane && !self.state.is_empty() {
            let session_id = self.state.sessions[self.state.selected].id.clone();
            let pane_id = match self.state.selected_pane_target() {
                Some(target) => Some(target.pane_id.clone()),
                None => None,
            };
            self.has_pane = true;
            PanePlan::Spawn { session_id, pane_id }
        } else if self.has_pane && self.last_pane_area != Some(parts[0]) {
            PanePlan::Resize { width: parts[0].width, height: parts[0].height }
        } else {
            PanePlan::Keep
        };
        self.last_pane_area = Some(parts[0]);
        Frame { pane_area: parts[0], sidebar_area: parts[1], rows, pane }
    }

    /// Lays out the sidebar of a frame, scrolled so that the selection is seen.
    pub fn draw_sidebar(&mut self, frame: &Frame) -> (drawn: SidebarFrame)
        requires
            row_views(frame.rows@) == sidebar_rows(old(self)@.app),
        ensures
            drawn.body == sidebar_parts(frame.sidebar_area).0,
            drawn.exit_button == sidebar_parts(frame.sidebar_area).1,
            drawn.selected == highlighted_row(old(self)@.app),
            drawn.offset == synced_offset(
                old(self)@.list_offset,
                highlighted_row(old(self)@.app),
                drawn.body.height as nat,
                frame.rows@.len(),
            ),
            line_views(drawn.items@) == row_labels(
                row_views(frame.rows@),
                old(self)@.app.sessions,
            ),
            final(self)@ == (ChooserView { list_offset: drawn.offset as nat, ..old(self)@ }),
    {
        let parts = split_sidebar(frame.sidebar_area);
        assert(parts@[0] == sidebar_parts(frame.sidebar_area).0);
        assert(parts@[1] == sidebar_parts(frame.sidebar_area).1);
        let selected: usize = match selected_sidebar_row_index(&self.state, &frame.rows) {
            Some(at) => at,
            None => 0,
        };
        sync_sidebar_list_offset(
            &mut self.list_offset,
            selected,
            parts[0].height as usize,
            frame.rows.len(),
        );
        let ghost labels = row_labels(row_views(frame.rows@), self.state@.sessions);
        let mut items: Vec<Line> = Vec::new();
        let mut i: usize = 0;
        assert(line_views(items@) =~= labels.take(0));
        while i < frame.rows.len()
            invariant
                i <= frame.rows@.len(),
                row_views(frame.rows@) == sidebar_rows(self.state@),
                labels == row_labels(row_views(frame.rows@), self.state@.sessions),
                line_views(items@) == labels.take(i as int),
            decreases frame.rows@.len() - i,
        {
            let ghost before = line_views(items@);
            proof {
                assert(row_views(frame.rows@)[i as int] == frame.rows@[i as int]@);
                lemma_rows_name_sessions(self.state@, self.state@.sessions.len(), i as int);
            }
            let item = sidebar_item(&frame.rows[i], &self.state.sessions);
            let ghost view = item@;
            items.push(item);
            assert(line_views(items@) =~= before.push(view));
            assert(labels.take(i + 1) =~= before.push(view));
            i = i + 1;
        }
        assert(labels.take(i as int) =~= labels);
        SidebarFrame {
            body: parts[0],
            exit_button: parts[1],
            offset: self.list_offset,
            selected,
            items,
        }
    }

    /// Takes in bytes from the user's terminal.
    pub fn feed(&mut self, chunk: &Vec<u8>)
        ensures
            final(self)@ == (ChooserView { pending: old(self)@.pending + chunk@, ..old(self)@ }),
    {
        let mut i: usize = 0;
        assert(self.pending@ =~= old(self).pending@ + chunk@.take(0));
        while i < chunk.len()
            invariant
                i <= chunk@.len(),
                self@ == (ChooserView {
                    pending: old(self)@.pending + chunk@.take(i as int),
                    ..old(self)@
                }),
            decreases chunk@.len() - i,
        {
            self.pending.push(chunk[i]);
            assert(self.pending@ =~= old(self).pending@ + chunk@.take(i + 1));
            i = i + 1;
        }
        assert(chunk@.take(i as int) =~= chunk@);
    }

    /// Deals with the input that came in, as far as it can be told what it is.
    pub fn handle_input(&mut self, frame: &Frame) -> (outcome: DrainOutcome)
        ensures
            ({
                let screen = (ScreenView {
                    pane_area: frame.pane_area,
                    sidebar_area: frame.sidebar_area,
                    rows: row_views(frame.rows@),
                    list_offset: old(self)@.list_offset,
                });
                let drained = drain(
                    screen,
                    old(self)@.pending,
                    old(self)@.app,
                    old(self)@.captured,
                );
                &&& action_views(outcome.actions@) == drained.actions
                &&& outcome.exit == drained.exit
                &&& final(self)@ == after_input(old(self)@, screen)
            }),
            old(self)@.app.selection_in_range() ==> final(self)@.app.selection_in_range(),
    {
        let ghost screen = ScreenView {
            pane_area: frame.pane_area,
            sidebar_area: frame.sidebar_area,
            rows: row_views(frame.rows@),
            list_offset: self.list_offset as nat,
        };
        proof {
            if self@.app.selection_in_range() {
                law_input_keeps_the_selection_in_range(
                    screen,
                    self@.pending,
                    self@.app,
                    self@.captured,
                );
            }
        }
        let outcome = drain_host_input(
            &mut self.pending,
            frame.pane_area,
            frame.sidebar_area,
            &frame.rows,
            self.list_offset,
            &mut self.state,
            &mut self.tmux_mouse_captured,
        );
        let ghost actions = action_views(outcome.actions@);
        let ghost had_pane = self.has_pane;
        let mut i: usize = 0;
        while i < outcome.actions.len()
            invariant
                i <= outcome.actions@.len(),
                actions == action_views(outcome.actions@),
                self@ == (ChooserView {
                    app: self@.app,
                    pending: self@.pending,
                    captured: self@.captured,
                    has_pane: had_pane && !restarts(actions.take(i as int)),
                    ..old(self)@
                }),
                had_pane == old(self)@.has_pane,
                (DrainView {
                    pending: self@.pending,
                    app: self@.app,
                    captured: self@.captured,
                    actions,
                    exit: outcome.exit,
                }) == drain(screen, old(self)@.pending, old(self)@.app, old(self)@.captured),
            decreases outcome.actions@.len() - i,
        {
            proof {
                assert(actions[i as int] == outcome.actions@[i as int]@);
                let now = actions.take(i as int);
                let next = actions.take(i + 1);
                if restarts(now) {
                    let k = choose|k: int|
                        0 <= k < now.len() && (#[trigger] now[k]) is RestartPane;
                    assert(next[k] is RestartPane);
                }
                if restarts(next) {
                    let k = choose|k: int|
                        0 <= k < next.len() && (#[trigger] next[k]) is RestartPane;
                    if k < i {
                        assert(now[k] is RestartPane);
                    }
                }
                if actions[i as int] is RestartPane {
                    assert(next[i as int] is RestartPane);
                }
            }
            if matches!(outcome.actions[i], HostAction::RestartPane) {
                self.has_pane = false;
            }
            i = i + 1;
        }
        assert(actions.take(i as int) =~= actions);
        outcome
    }
}

/// The chooser after it has dealt with input, on a screen where things are as given.
pub open spec fn after_input(chooser: ChooserView, screen: ScreenView) -> ChooserView {
    let drained = drain(screen, chooser.pending, chooser.app, chooser.captured);
    ChooserView {
        app: drained.app,
        pending: drained.pending,
        captured: drained.captured,
        has_pane: chooser.has_pane && !restarts(drained.actions),
        ..chooser
    }
}

/// Once input has changed the selection, the next frame starts a tmux client for the session,
/// and the pane if any, that is selected then.
pub proof fn law_client_follows_the_selection(
    chooser: ChooserView,
    screen: ScreenView,
    area: Rect,
)
    requires
        chooser.app.selection_in_range(),
        chooser.app.sessions.len() > 0,
        after_input(chooser, screen).app != chooser.app,
    ensures
        ({
            let after = after_input(chooser, screen);
            plan_of(after, area) == PlanView::Spawn {
                session_id: after.app.sessions[after.app.selected as int].id@,
                pane_id: after.app.selected_pane,
            }
        }),
{
    let drained = drain(screen, chooser.pending, chooser.app, chooser.captured);
    law_input_keeps_the_selection_in_range(
        screen,
        chooser.pending,
        chooser.app,
        chooser.captured,
    );
    if !restarts(drained.actions) {
        law_selection_changes_with_the_client(
            screen,
            chooser.pending,
            chooser.app,
            chooser.captured,
        );
    }
}

/// What is known of the process of the tmux client.
#[derive(Clone, Copy, Debug, PartialEq, Eq, Structural)]
pub enum ChildStatus {
    Running,
    Exited,
    /// Its state cannot be had.
    Unknown,
}

/// Takes note of the state of the tmux client, and tells when it is found to have ended. That
/// is told once.
pub fn note_child_status(exited: &mut bool, status: ChildStatus) -> (ended: bool)
    ensures
        ended == (!*old(exited) && !(status is Running)),
        *final(exited) == (*old(exited) || !(status is Running)),
{
    if *exited {
        return false;
    }
    match status {
        ChildStatus::Running => false,
        _ => {
            *exited = true;
            true
        },
    }
}

/// Whether to stop after a frame. A tmux client that has ended is an error: the view is not
/// complete without one.
pub fn after_frame(pane_exited: bool, one_frame_only: bool) -> (stop: Result<bool, VmuxError>)
    ensures
        match stop {
            Ok(stop) => !pane_exited && stop == one_frame_only,
            Err(error) => pane_exited && error@ == VmuxErrorView::Terminal(
                "embedded tmux client exited"@,
            ),
        },
{
    if pane_exited {
        return Err(VmuxError::Terminal("embedded tmux client exited".to_owned()));
    }
    Ok(one_frame_only)
}

} // verus!

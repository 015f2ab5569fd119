//! What is done with the bytes that the user's terminal sends: mouse reports for the sidebar
//! change the selection, and everything else goes to the tmux client.

use crate::layout::{rect_contains, rect_holds, sidebar_parts, split_sidebar, Rect};
use crate::mouse::{
    body_end, find_mouse_prefix, held_back, mouse_prefix, mouse_prefix_suffix_len, mouse_token,
    pane_report, parse_sgr_mouse_sequence, prefix_at, starts_with_mouse_prefix,
    tmux_mouse_event_to_bytes, MouseButton, MouseEvent, MouseEventKind, MouseToken,
    ParsedSgrMouseSequence,
};
use crate::sidebar::{
    row_views, sidebar_mouse_target_from_point, target_at, RowView, SidebarMouseTarget, SidebarRow,
};
use crate::state::{AppState, AppView};
use crate::text::same_text;
use vstd::prelude::*;

verus! {

#[derive(Clone, Copy, Debug, PartialEq, Eq, Structural)]
pub enum MouseRoutingResult {
    Handled,
    NotHandled,
    Exit,
}

/// What is to be done about a mouse event, apart from the changes to the state.
#[derive(Clone, Debug, PartialEq, Eq)]
pub struct MouseRouting {
    pub result: MouseRoutingResult,
    /// What the tmux client is to be sent.
    pub send: Option<Vec<u8>>,
    /// Whether the tmux client shows the wrong session or pane by now.
    pub restart_pane: bool,
}

/// What a mouse event leads to.
pub struct RouteView {
    pub app: AppView,
    pub captured: bool,
    pub result: MouseRoutingResult,
    pub send: Option<Seq<u8>>,
    pub restart_pane: bool,
}

/// Where things are on the screen.
pub struct ScreenView {
    pub pane_area: Rect,
    pub sidebar_area: Rect,
    pub rows: Seq<RowView>,
    pub list_offset: nat,
}

/// Whether a click on a row changes what is selected.
pub open spec fn click_changes(app: AppView, row: RowView) -> bool {
    match row {
        RowView::Session { session_index } => app.selected != session_index
            || app.selected_pane is Some,
        RowView::Pane { session_index, pane } => app.selected != session_index
            || app.selected_pane != Some(pane.pane_id),
        RowView::Spacer => false,
    }
}

/// The state after a click on a row.
pub open spec fn click(app: AppView, row: RowView) -> AppView {
    if !click_changes(app, row) {
        app
    } else {
        match row {
            RowView::Session { session_index } => app.select_session(session_index),
            RowView::Pane { session_index, pane } => app.select_pane(session_index, pane.pane_id),
            RowView::Spacer => app,
        }
    }
}

/// Whether the tmux pane holds the mouse after an event that was sent to it: from a press to
/// the next release.
pub open spec fn capture_after(kind: MouseEventKind, captured: bool) -> bool {
    match kind {
        MouseEventKind::Down(_) => true,
        MouseEventKind::Up(_) => false,
        _ => captured,
    }
}

/// A left click selects in the sidebar, or exits. Any other event goes to the tmux client if it
/// is in its pane or the pane holds the mouse, and is left alone otherwise.
pub open spec fn route(
    screen: ScreenView,
    mouse: MouseEvent,
    app: AppView,
    captured: bool,
) -> RouteView {
    let (body, exit) = sidebar_parts(screen.sidebar_area);
    let target = target_at(body, exit, mouse.column, mouse.row, screen.rows, screen.list_offset);
    let left_click = mouse.kind == MouseEventKind::Down(MouseButton::Left);
    match (target, left_click) {
        (Some(SidebarMouseTarget::Row(index)), true) => RouteView {
            app: click(app, screen.rows[index as int]),
            captured: false,
            result: MouseRoutingResult::Handled,
            send: None,
            restart_pane: click_changes(app, screen.rows[index as int]),
        },
        (Some(SidebarMouseTarget::Exit), true) => RouteView {
            app,
            captured: false,
            result: MouseRoutingResult::Exit,
            send: None,
            restart_pane: false,
        },
        _ => if rect_holds(screen.pane_area, mouse.column, mouse.row) || captured {
            RouteView {
                app,
                captured: capture_after(mouse.kind, captured),
                result: MouseRoutingResult::Handled,
                send: Some(pane_report(mouse, screen.pane_area)),
                restart_pane: false,
            }
        } else {
            RouteView {
                app,
                captured: false,
                result: MouseRoutingResult::NotHandled,
                send: None,
                restart_pane: false,
            }
        },
    }
}

pub open spec fn bytes_view(bytes: Option<Vec<u8>>) -> Option<Seq<u8>> {
    match bytes {
        Some(bytes) => Some(bytes@),
        None => None,
    }
}

fn click_row(row: &SidebarRow, state: &mut AppState) -> (changed: bool)
    ensures
        changed == click_changes(old(state)@, row@),
        final(state)@ == click(old(state)@, row@),
{
    match row {
        SidebarRow::Session { session_index } => {
            let changed = state.selected != *session_index || state.selected_pane.is_some();
            if changed {
                state.select_session(*session_index);
            }
            changed
        },
        SidebarRow::Pane { session_index, pane } => {
            let same_pane = match &state.selected_pane {
                Some(target) => same_text(target.pane_id.as_str(), pane.pane_id.as_str()),
                None => false,
            };
            let changed = state.selected != *session_index || !same_pane;
            if changed {
                state.select_pane(*session_index, pane);
            }
            changed
        },
        SidebarRow::Spacer => false,
    }
}

/// Decides what a mouse event is for.
pub fn process_host_mouse_event(
    mouse: &MouseEvent,
    pane_area: Rect,
    sidebar_area: Rect,
    sidebar_rows: &Vec<SidebarRow>,
    list_offset: usize,
    state: &mut AppState,
    tmux_mouse_captured: &mut bool,
) -> (routing: MouseRouting)
    ensures
        (RouteView {
            app: final(state)@,
            captured: *final(tmux_mouse_captured),
            result: routing.result,
            send: bytes_view(routing.send),
            restart_pane: routing.restart_pane,
        }) == route(
            (ScreenView {
                pane_area,
                sidebar_area,
                rows: row_views(sidebar_rows@),
                list_offset: list_offset as nat,
            }),
            *mouse,
            old(state)@,
            *old(tmux_mouse_captured),
        ),
{
    let parts = split_sidebar(sidebar_area);
    assert(parts@[0] == sidebar_parts(sidebar_area).0);
    assert(parts@[1] == sidebar_parts(sidebar_area).1);
    let target = sidebar_mouse_target_from_point(
        parts[0],
        parts[1],
        mouse.column,
        mouse.row,
        sidebar_rows,
        list_offset,
    );
    let left_click = matches!(mouse.kind, MouseEventKind::Down(MouseButton::Left));
    if left_click {
        match target {
            Some(SidebarMouseTarget::Row(index)) => {
                assert(row_views(sidebar_rows@)[index as int] == sidebar_rows@[index as int]@);
                let restart_pane = click_row(&sidebar_rows[index], state);
                *tmux_mouse_captured = false;
                return MouseRouting {
                    result: MouseRoutingResult::Handled,
                    send: None,
                    restart_pane,
                };
            },
            Some(SidebarMouseTarget::Exit) => {
                *tmux_mouse_captured = false;
                return MouseRouting {
                    result: MouseRoutingResult::Exit,
                    send: None,
                    restart_pane: false,
                };
            },
            None => {},
        }
    }
    if rect_contains(pane_area, mouse.column, mouse.row) || *tmux_mouse_captured {
        match mouse.kind {
            MouseEventKind::Down(_) => {
                *tmux_mouse_captured = true;
            },
            MouseEventKind::Up(_) => {
                *tmux_mouse_captured = false;
            },
            _ => {},
        }
        MouseRouting {
            result: MouseRoutingResult::Handled,
            send: Some(tmux_mouse_event_to_bytes(mouse, pane_area)),
            restart_pane: false,
        }
    } else {
        if matches!(mouse.kind, MouseEventKind::Up(_)) {
            *tmux_mouse_captured = false;
        }
        MouseRouting { result: MouseRoutingResult::NotHandled, send: None, restart_pane: false }
    }
}

/// What the loop around the terminal has to do, in order.
#[derive(Clone, Debug, PartialEq, Eq)]
pub enum HostAction {
    /// Send bytes to the tmux client, if there is one.
    Send(Vec<u8>),
    /// Give up the tmux client; another one is to be started.
    RestartPane,
}

pub enum ActionView {
    Send(Seq<u8>),
    RestartPane,
}

impl View for HostAction {
    type V = ActionView;

    open spec fn view(&self) -> ActionView {
        match *self {
            HostAction::Send(bytes) => ActionView::Send(bytes@),
            HostAction::RestartPane => ActionView::RestartPane,
        }
    }
}

pub open spec fn action_views(actions: Seq<HostAction>) -> Seq<ActionView> {
    actions.map_values(|action: HostAction| action@)
}

/// What pending input begins with.
pub enum InputStep {
    /// Too little to tell.
    Wait,
    /// So many bytes that are no mouse report.
    Plain(nat),
    /// A mouse report of so many bytes.
    Report(MouseEvent, nat),
}

/// How many bytes at the beginning are not part of a mouse report, in input that does not begin
/// with one.
pub open spec fn plain_run(pending: Seq<u8>) -> int {
    if exists|at: int| #[trigger] prefix_at(pending, at) {
        choose|at: int| #[trigger]
            prefix_at(pending, at) && forall|earlier: int|
                earlier < at ==> !#[trigger] prefix_at(pending, earlier)
    } else {
        pending.len() - held_back(pending)
    }
}

/// The next piece of pending input. What looks like a mouse report and is none loses its first
/// byte.
pub open spec fn next_input(pending: Seq<u8>) -> InputStep {
    if mouse_prefix().is_prefix_of(pending) {
        match mouse_token(pending) {
            MouseToken::Report(event, len) => InputStep::Report(event, len),
            MouseToken::Partial => InputStep::Wait,
            MouseToken::NoReport => InputStep::Plain(1),
        }
    } else if plain_run(pending) > 0 {
        InputStep::Plain(plain_run(pending) as nat)
    } else {
        InputStep::Wait
    }
}

/// What draining pending input leads to.
pub struct DrainView {
    pub pending: Seq<u8>,
    pub app: AppView,
    pub captured: bool,
    pub actions: Seq<ActionView>,
    pub exit: bool,
}

impl DrainView {
    /// The same with `actions` before its own.
    pub open spec fn after(self, actions: Seq<ActionView>) -> DrainView {
        DrainView { actions: actions + self.actions, ..self }
    }
}

/// What the loop has to do about a mouse report, given as it came in.
pub open spec fn report_actions(routed: RouteView, report: Seq<u8>) -> Seq<ActionView> {
    if routed.result == MouseRoutingResult::NotHandled {
        seq![ActionView::Send(report)]
    } else if routed.restart_pane {
        seq![ActionView::RestartPane]
    } else {
        match routed.send {
            Some(bytes) => seq![ActionView::Send(bytes)],
            None => Seq::empty(),
        }
    }
}

/// Takes pending input piece by piece: plain bytes and unclaimed mouse reports are sent on as
/// they are, other reports are routed. Ends with what cannot be told yet, or at a click on the
/// exit button.
#[verifier::opaque]
pub open spec fn drain(
    screen: ScreenView,
    pending: Seq<u8>,
    app: AppView,
    captured: bool,
) -> DrainView
    decreases pending.len(),
{
    proof {
        lemma_step_advances(pending);
    }
    match next_input(pending) {
        InputStep::Wait => DrainView { pending, app, captured, actions: Seq::empty(), exit: false },
        InputStep::Plain(len) => drain(screen, pending.skip(len as int), app, captured).after(
            seq![ActionView::Send(pending.take(len as int))],
        ),
        InputStep::Report(event, len) => {
            let routed = route(screen, event, app, captured);
            let actions = report_actions(routed, pending.take(len as int));
            let rest = pending.skip(len as int);
            if routed.result == MouseRoutingResult::Exit {
                DrainView {
                    pending: rest,
                    app: routed.app,
                    captured: routed.captured,
                    actions,
                    exit: true,
                }
            } else {
                drain(screen, rest, routed.app, routed.captured).after(actions)
            }
        },
    }
}

proof fn lemma_body_end_bounds(bytes: Seq<u8>, from: int)
    requires
        0 <= from <= bytes.len(),
    ensures
        from <= body_end(bytes, from) <= bytes.len(),
    decreases bytes.len() - from,
{
    if from < bytes.len() {
        lemma_body_end_bounds(bytes, from + 1);
    }
}

proof fn lemma_first_prefix(bytes: Seq<u8>, at: int)
    requires
        prefix_at(bytes, at),
    ensures
        exists|first: int| #[trigger]
            prefix_at(bytes, first) && forall|earlier: int|
                earlier < first ==> !#[trigger] prefix_at(bytes, earlier),
    decreases at,
{
    if exists|earlier: int| earlier < at && #[trigger] prefix_at(bytes, earlier) {
        let earlier = choose|earlier: int| earlier < at && #[trigger] prefix_at(bytes, earlier);
        lemma_first_prefix(bytes, earlier);
    } else {
        assert(prefix_at(bytes, at));
    }
}

/// What [`plain_run`] counts: the bytes before the first prefix of a report, and where there is
/// none, all but those held back.
pub proof fn lemma_plain_run(pending: Seq<u8>)
    ensures
        0 <= plain_run(pending) <= pending.len(),
        (exists|at: int| #[trigger] prefix_at(pending, at)) ==> prefix_at(
            pending,
            plain_run(pending),
        ) && forall|earlier: int|
            earlier < plain_run(pending) ==> !#[trigger] prefix_at(pending, earlier),
{
    if exists|at: int| #[trigger] prefix_at(pending, at) {
        let at = choose|at: int| #[trigger] prefix_at(pending, at);
        lemma_first_prefix(pending, at);
    }
}

/// A step takes at least one byte, and no more than there are.
pub proof fn lemma_step_advances(pending: Seq<u8>)
    ensures
        match next_input(pending) {
            InputStep::Wait => true,
            InputStep::Plain(len) => 0 < len <= pending.len(),
            InputStep::Report(_, len) => 0 < len <= pending.len(),
        },
{
    if mouse_prefix().is_prefix_of(pending) {
        lemma_body_end_bounds(pending, 3);
    } else {
        lemma_plain_run(pending);
    }
}

/// What is to be done after pending input was drained.
#[derive(Clone, Debug, PartialEq, Eq)]
pub struct DrainOutcome {
    pub actions: Vec<HostAction>,
    pub exit: bool,
}

/// Takes the first `len` bytes out of `pending`.
fn take_front(pending: &mut Vec<u8>, len: usize) -> (front: Vec<u8>)
    requires
        len <= old(pending)@.len(),
    ensures
        front@ == old(pending)@.take(len as int),
        final(pending)@ == old(pending)@.skip(len as int),
{
    let mut front = pending.split_off(len);
    std::mem::swap(&mut front, pending);
    assert(front@ =~= old(pending)@.take(len as int));
    assert(pending@ =~= old(pending)@.skip(len as int));
    front
}

/// Routes the mouse report that pending input begins with.
fn drain_report(
    event: &MouseEvent,
    len: usize,
    pending: &mut Vec<u8>,
    pane_area: Rect,
    sidebar_area: Rect,
    sidebar_rows: &Vec<SidebarRow>,
    list_offset: usize,
    state: &mut AppState,
    tmux_mouse_captured: &mut bool,
    actions: &mut Vec<HostAction>,
) -> (exit: bool)
    requires
        len <= old(pending)@.len(),
    ensures
        final(pending)@ == old(pending)@.skip(len as int),
        ({
            let routed = route(
                (ScreenView {
                    pane_area,
                    sidebar_area,
                    rows: row_views(sidebar_rows@),
                    list_offset: list_offset as nat,
                }),
                *event,
                old(state)@,
                *old(tmux_mouse_captured),
            );
            &&& final(state)@ == routed.app
            &&& *final(tmux_mouse_captured) == routed.captured
            &&& action_views(final(actions)@) == action_views(old(actions)@) + report_actions(
                routed,
                old(pending)@.take(len as int),
            )
            &&& exit == (routed.result == MouseRoutingResult::Exit)
        }),
{
    let ghost done = action_views(actions@);
    let report = take_front(pending, len);
    let routing = process_host_mouse_event(
        event,
        pane_area,
        sidebar_area,
        sidebar_rows,
        list_offset,
        state,
        tmux_mouse_captured,
    );
    let ghost routed = RouteView {
        app: state@,
        captured: *tmux_mouse_captured,
        result: routing.result,
        send: bytes_view(routing.send),
        restart_pane: routing.restart_pane,
    };
    let ghost new = report_actions(routed, report@);
    let exit = matches!(routing.result, MouseRoutingResult::Exit);
    if matches!(routing.result, MouseRoutingResult::NotHandled) {
        actions.push(HostAction::Send(report));
    } else if routing.restart_pane {
        actions.push(HostAction::RestartPane);
    } else {
        match routing.send {
            Some(bytes) => {
                actions.push(HostAction::Send(bytes));
            },
            None => {},
        }
    }
    assert(action_views(actions@) =~= done + new);
    exit
}

/// How many bytes are to be sent on, in input that does not begin with a mouse report.
fn plain_run_len(pending: &Vec<u8>) -> (len: usize)
    ensures
        len == plain_run(pending@),
        len <= pending@.len(),
{
    match find_mouse_prefix(pending.as_slice()) {
        Some(at) => {
            proof {
                lemma_plain_run(pending@);
                assert(prefix_at(pending@, at as int));
                assert(prefix_at(pending@, plain_run(pending@)));
            }
            at
        },
        None => pending.len() - mouse_prefix_suffix_len(pending.as_slice()),
    }
}

/// Draining goes on after plain bytes.
pub proof fn lemma_drain_plain(
    screen: ScreenView,
    pending: Seq<u8>,
    app: AppView,
    captured: bool,
    len: nat,
    done: Seq<ActionView>,
)
    requires
        next_input(pending) == InputStep::Plain(len),
    ensures
        drain(screen, pending, app, captured).after(done) == drain(
            screen,
            pending.skip(len as int),
            app,
            captured,
        ).after(done.push(ActionView::Send(pending.take(len as int)))),
{
    reveal(drain);
    let rest = drain(screen, pending.skip(len as int), app, captured);
    let send = ActionView::Send(pending.take(len as int));
    assert(done + (seq![send] + rest.actions) =~= done.push(send) + rest.actions);
}

/// Draining ends where too little has come in.
pub proof fn lemma_drain_wait(
    screen: ScreenView,
    pending: Seq<u8>,
    app: AppView,
    captured: bool,
    done: Seq<ActionView>,
)
    requires
        next_input(pending) is Wait,
    ensures
        drain(screen, pending, app, captured).after(done) == (DrainView {
            pending,
            app,
            captured,
            actions: done,
            exit: false,
        }),
{
    reveal(drain);
    assert(done + Seq::<ActionView>::empty() =~= done);
}

/// Draining goes on after a mouse report, unless it exits.
pub proof fn lemma_drain_report(
    screen: ScreenView,
    pending: Seq<u8>,
    app: AppView,
    captured: bool,
    event: MouseEvent,
    len: nat,
    done: Seq<ActionView>,
)
    requires
        next_input(pending) == InputStep::Report(event, len),
    ensures
        ({
            let routed = route(screen, event, app, captured);
            let actions = done + report_actions(routed, pending.take(len as int));
            drain(screen, pending, app, captured).after(done) == if routed.result
                == MouseRoutingResult::Exit {
                DrainView {
                    pending: pending.skip(len as int),
                    app: routed.app,
                    captured: routed.captured,
                    actions,
                    exit: true,
                }
            } else {
                drain(screen, pending.skip(len as int), routed.app, routed.captured).after(actions)
            }
        }),
{
    reveal(drain);
    let routed = route(screen, event, app, captured);
    let new = report_actions(routed, pending.take(len as int));
    let rest = drain(screen, pending.skip(len as int), routed.app, routed.captured);
    assert(done + (new + rest.actions) =~= (done + new) + rest.actions);
}

/// Decides what becomes of pending input.
pub fn drain_host_input(
    pending: &mut Vec<u8>,
    pane_area: Rect,
    sidebar_area: Rect,
    sidebar_rows: &Vec<SidebarRow>,
    list_offset: usize,
    state: &mut AppState,
    tmux_mouse_captured: &mut bool,
) -> (outcome: DrainOutcome)
    ensures
        (DrainView {
            pending: final(pending)@,
            app: final(state)@,
            captured: *final(tmux_mouse_captured),
            actions: action_views(outcome.actions@),
            exit: outcome.exit,
        }) == drain(
            (ScreenView {
                pane_area,
                sidebar_area,
                rows: row_views(sidebar_rows@),
                list_offset: list_offset as nat,
            }),
            old(pending)@,
            old(state)@,
            *old(tmux_mouse_captured),
        ),
{
    let ghost screen = ScreenView {
        pane_area,
        sidebar_area,
        rows: row_views(sidebar_rows@),
        list_offset: list_offset as nat,
    };
    let ghost whole = drain(screen, pending@, state@, *tmux_mouse_captured);
    let mut actions: Vec<HostAction> = Vec::new();
    assert(action_views(actions@) =~= Seq::empty());
    assert(Seq::<ActionView>::empty() + whole.actions =~= whole.actions);
    loop
        invariant
            screen == (ScreenView {
                pane_area,
                sidebar_area,
                rows: row_views(sidebar_rows@),
                list_offset: list_offset as nat,
            }),
            whole == drain(
                screen,
                old(pending)@,
                old(state)@,
                *old(tmux_mouse_captured),
            ),
            whole == drain(screen, pending@, state@, *tmux_mouse_captured).after(
                action_views(actions@),
            ),
        decreases pending@.len(),
    {
        let ghost done = action_views(actions@);
        let ghost before = pending@;
        proof {
            lemma_step_advances(pending@);
        }
        if starts_with_mouse_prefix(pending.as_slice()) {
            match parse_sgr_mouse_sequence(pending.as_slice()) {
                ParsedSgrMouseSequence::Complete { event, consumed } => {
                    proof {
                        assert(next_input(pending@) == InputStep::Report(event, consumed as nat));
                        lemma_drain_report(
                            screen,
                            pending@,
                            state@,
                            *tmux_mouse_captured,
                            event,
                            consumed as nat,
                            done,
                        );
                    }
                    let exit = drain_report(
                        &event,
                        consumed,
                        pending,
                        pane_area,
                        sidebar_area,
                        sidebar_rows,
                        list_offset,
                        state,
                        tmux_mouse_captured,
                        &mut actions,
                    );
                    if exit {
                        return DrainOutcome { actions, exit: true };
                    }
                },
                ParsedSgrMouseSequence::Incomplete => {
                    proof {
                        lemma_drain_wait(screen, pending@, state@, *tmux_mouse_captured, done);
                    }
                    return DrainOutcome { actions, exit: false };
                },
                ParsedSgrMouseSequence::Invalid => {
                    proof {
                        lemma_drain_plain(screen, pending@, state@, *tmux_mouse_captured, 1, done);
                    }
                    let front = take_front(pending, 1);
                    actions.push(HostAction::Send(front));
                    assert(action_views(actions@) =~= done.push(ActionView::Send(before.take(1))));
                },
            }
        } else {
            let len: usize = plain_run_len(pending);
            if len == 0 {
                proof {
                    lemma_drain_wait(screen, pending@, state@, *tmux_mouse_captured, done);
                }
                return DrainOutcome { actions, exit: false };
            }
            proof {
                lemma_drain_plain(
                    screen,
                    pending@,
                    state@,
                    *tmux_mouse_captured,
                    len as nat,
                    done,
                );
            }
            let front = take_front(pending, len);
            actions.push(HostAction::Send(front));
            assert(action_views(actions@) =~= done.push(
                ActionView::Send(before.take(len as int)),
            ));
        }
    }
}

} // verus!
